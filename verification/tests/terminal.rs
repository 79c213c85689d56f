//! The terminal: its keys, its pointer, its colors and its case.
use cozyui::cursor::CursorKind;
use cozyui::framebuffer::Framebuffer;
use cozyui::graphics::{Palette, Rgb, Rgba};
use cozyui::image::ImageError;
use cozyui::keysyms::{
    KEY_Home, KEY_Left, KEY_Next, KEY_Return, KEY_a, KEY_c, KEY_q, KEY_v,
};
use cozyui::palette_color::{BLACK, CRIMSON};
use cozyui::puter::chrome::{
    button_at, draw_screen, kind_of_button, AtlasError, ButtonKind, GlyphAtlas, ShownCell,
};
use cozyui::puter::color::{
    cell_style, dim_color, indexed_terminal_rgb, named_terminal_palette_index, Cell,
    DisplaySettings, Hue, NamedColor, SettingAction, Shade, TermColor, TextMode,
};
use cozyui::puter::keys::{is_copy_shortcut, key_bytes, key_scroll, Scroll};
use cozyui::puter::press::{PressState, Puter, PuterAction};
use cozyui::puter::terminal::{
    clamped_screen_point, copied_text, drain_events, handle_key_press, mouse_text, paste_bytes,
    screen_point, viewport_line, KeyAction, Point, TerminalEvent,
};
use cozyui::text::input::KeyInput;

const SHIFT: u16 = 1;
const CTRL: u16 = 4;

#[test]
fn plain_arrow_is_unmodified_csi() {
    let left = KeyInput::new(KEY_Left, "", 0);
    assert_eq!(key_bytes(&left).as_deref(), Some("\x1b[D"));
}

#[test]
fn printable_text_passes_through() {
    let q = KeyInput::new(KEY_q, "q", 0);
    assert_eq!(key_bytes(&q).as_deref(), Some("q"));
}

#[test]
fn ctrl_arrow_sends_modified_nav_sequence_not_plain_arrow() {
    let ctrl_left = KeyInput::new(KEY_Left, "", CTRL);
    assert_eq!(key_bytes(&ctrl_left).as_deref(), Some("\x1b[1;5D"));
}

#[test]
fn ctrl_shift_arrow_adds_shift_to_the_modifier() {
    let ctrl_shift_left = KeyInput::new(KEY_Left, "", CTRL | SHIFT);
    assert_eq!(key_bytes(&ctrl_shift_left).as_deref(), Some("\x1b[1;6D"));
}

#[test]
fn ctrl_letter_sends_control_byte() {
    let ctrl_a = KeyInput::new(KEY_a, "", CTRL);
    assert_eq!(key_bytes(&ctrl_a).as_deref(), Some("\x01"));
}

#[test]
fn is_copy_shortcut_requires_ctrl_shift_c() {
    let ctrl_shift_c = KeyInput::new(KEY_c, "c", CTRL | SHIFT);
    let ctrl_c = KeyInput::new(KEY_c, "c", CTRL);
    assert!(is_copy_shortcut(&ctrl_shift_c));
    assert!(!is_copy_shortcut(&ctrl_c));
}

#[test]
fn shift_home_scrolls_locally() {
    let shift_home = KeyInput::new(KEY_Home, "", SHIFT);
    assert!(matches!(key_scroll(&shift_home), Some(Scroll::Top)));
}

#[test]
fn ctrl_shift_home_is_left_to_the_pty_not_local_scroll() {
    let ctrl_shift_home = KeyInput::new(KEY_Home, "", CTRL | SHIFT);
    assert!(key_scroll(&ctrl_shift_home).is_none());
}

#[test]
fn bracketed_paste_wraps_text_in_bracket_markers() {
    let bytes = paste_bytes(true, "echo hi");
    assert_eq!(bytes, b"\x1b[200~echo hi\x1b[201~");
}

#[test]
fn bracketed_paste_filters_esc_and_etx_so_clipboard_cant_escape_bracket() {
    let bytes = paste_bytes(true, "a\x1bb\x03c");
    assert_eq!(bytes, b"\x1b[200~abc\x1b[201~");
}

#[test]
fn unbracketed_paste_converts_newlines_to_carriage_returns_and_strips_esc() {
    let bytes = paste_bytes(false, "line1\r\nline2\nline3\x1b[31m");
    assert_eq!(bytes, b"line1\rline2\rline3[31m");
}

#[test]
fn unbracketed_paste_keeps_tabs() {
    let bytes = paste_bytes(false, "a\tb");
    assert_eq!(bytes, b"a\tb");
}

#[test]
fn keys_scroll_copy_paste_or_are_written() {
    let next = KeyInput::new(KEY_Next, "", SHIFT);
    assert!(matches!(
        handle_key_press(&next, None, "", false),
        KeyAction::Scroll(Scroll::PageDown)
    ));
    let copy = KeyInput::new(KEY_c, "C", CTRL | SHIFT);
    assert!(matches!(handle_key_press(&copy, None, "", false), KeyAction::Copy));
    let paste = KeyInput::new(KEY_v, "V", CTRL | SHIFT);
    assert!(matches!(
        handle_key_press(&paste, Some("ls"), "", false),
        KeyAction::Write(text) if text == "ls"
    ));
    let enter = KeyInput::new(KEY_Return, "\r", 0);
    assert!(matches!(
        handle_key_press(&enter, None, "", false),
        KeyAction::Write(text) if text == "\r"
    ));
}

#[test]
fn events_end_the_terminal_or_are_answered() {
    let (events, writes) =
        drain_events(&vec![TerminalEvent::Write("x".to_string()), TerminalEvent::Other]);
    assert!(events.running);
    assert!(events.dirty);
    assert_eq!(writes, vec!["x".to_string()]);
    let (events, _) = drain_events(&vec![TerminalEvent::Exit]);
    assert!(!events.running);
    let (events, _) = drain_events(&vec![]);
    assert!(events.running && !events.dirty);
}

#[test]
fn the_pointer_is_told_by_cells() {
    assert_eq!(screen_point(30, 32), Some(Point { line: 0, column: 0 }));
    assert_eq!(screen_point(36, 44), Some(Point { line: 1, column: 1 }));
    assert!(screen_point(0, 0).is_none());
    assert_eq!(clamped_screen_point(-50, -50), Point { line: 0, column: 0 });
    assert_eq!(mouse_text(Point { line: 0, column: 2 }, true), "\x1b[<0;3;1M");
    assert_eq!(mouse_text(Point { line: 0, column: 2 }, false), "\x1b[<0;3;1m");
    assert_eq!(viewport_line(2, -2), Some(0));
    assert_eq!(viewport_line(0, -1), None);
}

#[test]
fn the_last_copy_stands_in_for_no_selection() {
    assert_eq!(copied_text(Some("a".to_string()), "old").as_deref(), Some("a"));
    assert_eq!(copied_text(None, "old").as_deref(), Some("old"));
    assert!(copied_text(None, "").is_none());
}

#[test]
fn a_press_is_one_thing_until_it_is_released() {
    let mut puter = Puter::load();
    assert!(matches!(
        puter.press_button(40, 50, false, Some(false)),
        PuterAction::StartSelection(_)
    ));
    assert!(matches!(puter.press_state, PressState::Selection(_)));
    assert!(matches!(puter.motion(60, 50, true), PuterAction::ExtendSelection(_)));
    let release = puter.release_button(60, 50, Some(false));
    assert!(matches!(release.action, PuterAction::CopySelection));
    assert!(matches!(puter.press_state, PressState::Idle));
    assert!(matches!(puter.press_button(40, 50, false, Some(true)), PuterAction::Write(_)));
    let release = puter.release_button(40, 50, Some(true));
    assert!(matches!(release.action, PuterAction::Write(_)));
    assert_eq!(Puter::hit_test(40, 50), Some(CursorKind::Text));
    assert_eq!(Puter::hit_test(0, 0), None);
}

/// A point on a button.
fn point_on(index: usize) -> (isize, isize) {
    for y in 0..300 {
        for x in 0..300 {
            if button_at(x, y) == Some(index) {
                return (x, y);
            }
        }
    }
    panic!("every button has a place");
}

#[test]
fn buttons_act_where_they_are_released() {
    for index in 0..5 {
        let (x, y) = point_on(index);
        assert_eq!(Puter::hit_test(x, y), Some(CursorKind::Hand));
        let mut puter = Puter::load();
        puter.press_button(x, y, false, None);
        assert!(matches!(puter.press_state, PressState::Chrome(i) if i == index));
        let before = puter.settings;
        let release = puter.release_button(x, y, None);
        match kind_of_button(index) {
            ButtonKind::Power => assert!(release.quit),
            ButtonKind::Lock => assert!(release.lock),
            ButtonKind::Setting(_) => assert_ne!(puter.settings, before),
        }
        puter.press_button(x, y, false, None);
        let release = puter.release_button(0, 0, None);
        assert!(!release.quit && !release.lock);
    }
}

#[test]
fn settings_switch_back_and_forth() {
    let mut settings = DisplaySettings::new();
    assert_eq!(settings.text_mode, TextMode::Orange);
    for action in [SettingAction::Brightness, SettingAction::Color, SettingAction::Contrast] {
        let before = settings;
        settings.toggle(action);
        assert_ne!(settings, before);
        settings.toggle(action);
        assert_eq!(settings, before);
    }
}

#[test]
fn dimming_ends() {
    let bright = TermColor::Named(NamedColor::Shaded(Hue::Red, Shade::Bright));
    let dim = TermColor::Named(NamedColor::Shaded(Hue::Red, Shade::Dim));
    assert_eq!(dim_color(dim_color(bright)), dim);
    assert_eq!(dim_color(dim), dim);
    assert_eq!(named_terminal_palette_index(NamedColor::Background), BLACK);
    assert_eq!(
        named_terminal_palette_index(NamedColor::Shaded(Hue::Red, Shade::Normal)),
        CRIMSON
    );
}

#[test]
fn indexed_colors_are_a_cube_and_a_ramp() {
    assert_eq!(indexed_terminal_rgb(16), Rgb { r: 0, g: 0, b: 0 });
    assert_eq!(indexed_terminal_rgb(231), Rgb { r: 255, g: 255, b: 255 });
    assert_eq!(indexed_terminal_rgb(232), Rgb { r: 8, g: 8, b: 8 });
    assert_eq!(indexed_terminal_rgb(21), Rgb { r: 0, g: 0, b: 255 });
}

fn palette() -> Palette {
    Palette::from_colors((0..16).map(|i| Rgb { r: i * 16, g: 255 - i * 16, b: i * 8 }).collect())
}

fn letter(c: char) -> Cell {
    Cell {
        c,
        fg: TermColor::Named(NamedColor::Shaded(Hue::Foreground, Shade::Normal)),
        bg: TermColor::Named(NamedColor::Background),
        bold: false,
        dim: false,
        inverse: false,
        underline: false,
        double_underline: false,
        strikeout: false,
        skipped: false,
    }
}

#[test]
fn selected_cells_are_turned_around() {
    let settings = DisplaySettings::new();
    let plain = cell_style(letter('a'), false, settings, &palette());
    let chosen = cell_style(letter('a'), true, settings, &palette());
    assert!(plain.bg.is_none());
    assert!(chosen.bg.is_some());
    assert_ne!(plain, chosen);
}

/// A picture of grays as a file.
fn gray_png(width: u32, height: u32, grays: &[u8]) -> Vec<u8> {
    let samples: Vec<u8> = grays.iter().flat_map(|gray| [*gray; 3]).collect();
    let mut file: Vec<u8> = Vec::new();
    {
        let mut encoder = png::Encoder::new(&mut file, width, height);
        encoder.set_color(png::ColorType::Rgb);
        encoder.set_depth(png::BitDepth::Eight);
        let mut writer = encoder.write_header().unwrap();
        writer.write_image_data(&samples).unwrap();
    }
    file
}

#[test]
fn letters_are_read_from_a_picture() {
    let mut samples = vec![0; 96 * 96];
    samples[0] = 255;
    // The letter A is the sixty-fifth: the second of the fifth row.
    samples[48 * 96 + 6] = 200;
    match GlyphAtlas::load(&gray_png(96, 96, &samples)) {
        Ok(atlas) => {
            assert_eq!(atlas.width, 96);
            assert!(atlas.is_on('\0', 0, 0));
            assert!(atlas.is_on('A', 0, 0));
            assert!(!atlas.is_on('A', 1, 0));
            assert!(!atlas.is_on('é', 0, 0));
        }
        Err(_) => panic!("the picture has all letters"),
    }
    let narrow = GlyphAtlas::load(&gray_png(5, 96, &vec![0; 5 * 96]));
    assert!(matches!(narrow, Err(AtlasError::TooNarrow)));
    let small = GlyphAtlas::load(&gray_png(96, 95, &vec![0; 96 * 95]));
    assert!(matches!(small, Err(AtlasError::TooSmall)));
    assert!(matches!(GlyphAtlas::load(b"text"), Err(AtlasError::Image(ImageError::Decode(_)))));
}

#[test]
fn letters_are_drawn_in_their_cells() {
    let empty = Rgba { r: 1, g: 1, b: 1, a: 255 };
    let mut fb = Framebuffer::new(240, 200, empty);
    let atlas = GlyphAtlas { width: 96, pixels: vec![true; 96 * 96] };
    let cells = vec![ShownCell {
        point: Point { line: 0, column: 0 },
        cell: letter('a'),
        selected: false,
    }];
    draw_screen(&mut fb, &cells, None, DisplaySettings::new(), &atlas, &palette());
    assert_ne!(fb.pixel(31, 33), empty);
    assert_eq!(fb.pixel(120, 120), empty);
}
