//! Whole widgets as pictures.
use cozyui::alarm::{load_stations, Alarm, TITLE_GAP, TUNER_X};
use cozyui::chat::models;
use cozyui::day::{date_parts, render_calendar};
use cozyui::fizzle::Size;
use cozyui::framebuffer::Framebuffer;
use cozyui::fwends::{Fwends, FwendsArt, H, W};
use cozyui::fwends_scene::{ChatArt, Sources};
use cozyui::graphics::{Palette, Rgb, Rgba, Sprite};
use cozyui::keysyms::KEY_Return;
use cozyui::localtime::Tm;
use cozyui::palette_color::{CREAM, CRIMSON, GUNMETAL};
use cozyui::puter::chrome::{
    case_shapes, pressed_shapes, BUTTON_SPRITES, LOCK_SPRITE, POWER_SPRITE, PRESSED_SPRITES,
};
use cozyui::puter::color::{DisplaySettings, SettingAction};
use cozyui::scene::Shape;
use cozyui::text::font::{BitmapFont, FontAtlas, FontSpec};
use cozyui::text::input::KeyInput;
use cozyui::todo::TodoList;
use cozyui::toodle::{archive_transaction_path, NotebookArt, Toodle};
use cozyui::toodle_scene::{draw_check, draw_checkbox_box, PageArt};

const HOLE: Rgba = Rgba { r: 0, g: 0, b: 0, a: 0 };

fn palette() -> Palette {
    Palette::from_colors((0..16).map(|i| Rgb { r: i, g: i, b: i }).collect())
}

fn filled(width: usize, height: usize, index: u8) -> Sprite {
    match Sprite::from_indices(width, height, vec![index; width * height]) {
        Ok(sprite) => sprite,
        Err(_) => panic!("as many pixels as the size says"),
    }
}

/// A font whose glyphs have no ink and advance six pixels.
fn font() -> BitmapFont {
    let mut file: Vec<u8> = Vec::new();
    {
        let mut encoder = png::Encoder::new(&mut file, 96, 64);
        encoder.set_color(png::ColorType::Rgb);
        encoder.set_depth(png::BitDepth::Eight);
        let mut writer = encoder.write_header().unwrap();
        writer.write_image_data(&[0; 96 * 64 * 3]).unwrap();
    }
    let spec = FontSpec {
        atlases: vec![FontAtlas { first_codepoint: 0, path: "font.png".to_string() }],
        block: 128,
        cell_w: 6,
        cell_h: 8,
        cols: 16,
        x_origin: 0,
        advance: vec![6; 128],
    };
    match BitmapFont::load(spec, &vec![file]) {
        Ok(font) => font,
        Err(_) => panic!("the atlas is whole"),
    }
}

#[test]
fn the_tuner_names_its_stations() {
    let stations = load_stations(Some("one|http://a\ntwo|http://b\n"));
    let mut radio = Alarm::load(240, 80, 8, stations, Some(40), Some((9, 5)), 0);
    let shapes = radio.tuner_shapes(&font());
    assert_eq!(shapes.len(), 3);
    match &shapes[0] {
        Shape::Text { text, x, y, .. } => {
            assert_eq!(text, "one");
            assert_eq!((*x, *y), (123, 20));
        }
        _ => panic!("a station is a text"),
    }
    match &shapes[2] {
        Shape::Fill { x, w, .. } => {
            assert_eq!(*x, TUNER_X as isize - 9);
            assert_eq!(*w, 5);
        }
        _ => panic!("the mark is a square"),
    }
    radio.player_started();
    match &radio.tuner_shapes(&font())[2] {
        Shape::Fill { x, .. } => assert!(*x >= TUNER_X as isize),
        _ => panic!("the mark is a square"),
    }
}

#[test]
fn the_title_stands_in_the_middle() {
    let stations = load_stations(Some("one|http://a\n"));
    let mut radio = Alarm::load(240, 80, 8, stations, None, None, 0);
    assert!(radio.title_shapes(&font()).is_empty());
    radio.player_started();
    radio.update(10_000_000, None, None, Some("a song"));
    assert_eq!(radio.current_title, "a song");
    match &radio.title_shapes(&font())[0] {
        Shape::Text { text, x, y, color, .. } => {
            assert_eq!(text, "a song");
            assert_eq!((*x, *y), (102, 80 + TITLE_GAP as isize));
            assert_eq!(*color, CREAM);
        }
        _ => panic!("the title is a text"),
    }
}

#[test]
fn the_calendar_marks_today() {
    let tm = Tm { tm_min: 0, tm_hour: 0, tm_mday: 4, tm_mon: 1, tm_year: 124, tm_wday: 0 };
    let shapes = render_calendar(&date_parts(&tm), 8);
    // The title, seven weekdays, 29 days, today's disc and the week numbers.
    assert!(shapes.len() >= 38);
    let discs = shapes.iter().filter(|shape| matches!(shape, Shape::Disc { .. })).count();
    assert_eq!(discs, 1);
    match &shapes[0] {
        Shape::Centered { text, .. } => assert_eq!(text, "FEB 2024"),
        _ => panic!("the title is a text"),
    }
    let light = shapes.iter().any(|shape| match shape {
        Shape::Centered { text, color, .. } => text == "4" && *color == CREAM,
        _ => false,
    });
    assert!(light);
    let weeks: Vec<&String> = shapes
        .iter()
        .filter_map(|shape| match shape {
            Shape::Centered { text, color, .. } if *color == CRIMSON && text.starts_with('w') => {
                Some(text)
            }
            _ => None,
        })
        .collect();
    assert_eq!(weeks.first().map(|text| text.as_str()), Some("w5"));
}

#[test]
fn the_case_shows_its_buttons() {
    let mut settings = DisplaySettings::new();
    let power = Size { w: 9, h: 9 };
    let lock = Size { w: 8, h: 9 };
    let shapes = case_shapes(settings, power, lock);
    let pictures: Vec<(usize, isize)> = shapes
        .iter()
        .filter_map(|shape| match shape {
            Shape::Picture { sprite, x, .. } => Some((*sprite, *x)),
            _ => None,
        })
        .collect();
    assert_eq!(pictures.iter().filter(|place| place.0 == BUTTON_SPRITES).count(), 3);
    assert!(pictures.contains(&(POWER_SPRITE, 215)));
    assert!(pictures.contains(&(LOCK_SPRITE, 195)));
    assert!(matches!(
        pressed_shapes(1)[0],
        Shape::Picture { sprite: PRESSED_SPRITES, .. }
    ));
    assert!(pressed_shapes(3).is_empty());
    let before = settings.case_image();
    settings.toggle(SettingAction::Contrast);
    assert_ne!(settings.case_image(), before);
}

fn notebook() -> Toodle {
    let lists = vec![
        TodoList::load("- [x] one\n- [ ] two\n"),
        TodoList::load("- [ ] frog\n"),
        TodoList::load(""),
        TodoList::load(""),
    ];
    let art = NotebookArt {
        page: Size { w: 180, h: 200 },
        dice: Size { w: 20, h: 20 },
        eraser: Size { w: 30, h: 12 },
        goldstar: Size { w: 24, h: 24 },
    };
    Toodle::load(lists, vec![0, 0, 0, 0], art)
}

#[test]
fn a_page_has_its_boxes_and_checks() {
    let pages = vec![
        filled(180, 200, 1),
        filled(180, 200, 2),
        filled(180, 200, 3),
        filled(180, 200, 4),
    ];
    let checkboxes = filled(180, 200, 5);
    let checks = filled(64, 16, 6);
    let pencil_shadow = filled(20, 20, 7);
    let palette = palette();
    let art = PageArt {
        pages: &pages,
        checkboxes: &checkboxes,
        checks: &checks,
        pencil_shadow: &pencil_shadow,
        palette: &palette,
    };
    let toodle = notebook();
    let mut fb = Framebuffer::new(300, 300, HOLE);
    toodle.build_page_art(&mut fb, &art);
    assert_ne!(fb.pixel(100, 100), HOLE);
    let mut fb = Framebuffer::new(300, 300, HOLE);
    draw_checkbox_box(&mut fb, 1, &art);
    assert_eq!(fb.pixel(14, 82), Rgba { r: 5, g: 5, b: 5, a: 255 });
    assert_eq!(fb.pixel(14, 81), HOLE);
    assert_eq!(fb.pixel(14, 104), HOLE);
    draw_check(&mut fb, 0, 1, false, &art);
    assert_eq!(fb.pixel(23, 89), Rgba { r: 6, g: 6, b: 6, a: 255 });
    draw_check(&mut fb, 0, 1, true, &art);
    let gray = GUNMETAL;
    assert_eq!(fb.pixel(23, 89), Rgba { r: gray, g: gray, b: gray, a: 255 });
}

#[test]
fn a_changed_list_is_saved_once() {
    let mut toodle = notebook();
    let font = font();
    assert!(toodle.save_text(0).is_none());
    // The text of the second line.
    toodle.click(14 + 60, 71 + 22 + 4, 0);
    toodle.handle_key_press(&KeyInput::new('!' as u32, "!", 0), None, &font);
    assert!(toodle.save_due(u64::MAX));
    assert!(!toodle.save_due(0));
    assert_eq!(toodle.save_text(0).map(|text| text.lines().count()), Some(2));
    toodle.mark_saved(0);
    assert!(toodle.save_text(0).is_none());
    assert!(!toodle.save_due(u64::MAX));
    assert!(archive_transaction_path("/notes").starts_with("/notes/"));
}

#[test]
fn a_checked_box_is_saved_at_once() {
    let mut toodle = notebook();
    // The checkbox of the second line.
    toodle.click(14 + 10 + 1, 71 + 22 + 1, 0);
    assert!(toodle.save_text(0).is_none());
    let (section, text) = toodle.save_current_section();
    assert_eq!(section, 0);
    assert_eq!(text, "- [x] one\n- [x] two\n");
}

#[test]
fn messages_are_drawn_from_the_top() {
    let art = FwendsArt {
        eraser: filled(45, 30, 1),
        lamp_on: filled(60, 100, 2),
        lamp_off: filled(60, 100, 3),
        slot_w: 40,
        slot_h: 50,
        sticky_w: 100,
        sticky_h: 80,
    };
    let house = models("Moss", "house/moss", "house/moss-deep");
    let mut fwends = Fwends::load(art, font(), String::new(), "Jodie".to_string(), house);
    let bubble = filled(8, 8, 9);
    let sticky = filled(8, 8, 10);
    let icons = filled(64, 16, 11);
    let palette = palette();
    let chat = ChatArt { bubble: &bubble, sticky: &sticky, icons: &icons, palette: &palette };
    let layouts = fwends.message_layouts();
    assert_eq!(layouts.len(), 1);
    let all: Vec<Sources> = layouts
        .iter()
        .map(|layout| Sources { columns: vec![0; layout.w], rows: vec![0; layout.h] })
        .collect();
    let mut fb = Framebuffer::new(W, H, HOLE);
    fwends.draw_messages(&mut fb, &chat, &all);
    let painted = (0..W).any(|x| (0..H).any(|y| fb.pixel(x, y) != HOLE));
    assert!(painted);
    let avatar = filled(30, 40, 12);
    let (x, y) = fwends.avatar_place(&avatar);
    fwends.draw_selected_fwend(&mut fb, &avatar, &palette);
    assert_eq!(fb.pixel(x, y), Rgba { r: 12, g: 12, b: 12, a: 255 });
    assert!(!fwends.pencil_shows());
    assert!(fwends.input_notice().is_none());
    let (x, y, _) = fwends.input_text_area();
    fwends.click(x as isize, y as isize, 0);
    assert!(fwends.pencil_shows());
    fwends.handle_key_press(&KeyInput::new('h' as u32, "h", 0), None);
    fwends.handle_key_press(&KeyInput::new(KEY_Return, "\r", 0), None);
    assert_eq!(fwends.input_notice(), Some("wait a sec..."));
    assert!(!fwends.pencil_shows());
    fwends.blur();
    assert!(!fwends.focused);
}
