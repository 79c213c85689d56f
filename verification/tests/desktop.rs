//! The layout, the desktop's routing and painting, and the chat widget.
use cozyui::chat::{models, Model};
use cozyui::cursor::CursorKind;
use cozyui::desktop::{
    should_load_clipboard_for_paste, Batch, CursorStep, Desktop, MotionStep, ReleaseStep,
};
use cozyui::framebuffer::Framebuffer;
use cozyui::fwends::{Fwends, FwendsAction, FwendsArt, H, W};
use cozyui::fwends_scene::{lamp_shadow_color, pencil_place, smol_icon_rect, yellow_swap};
use cozyui::graphics::{Paint, Palette, Rect, Rgb, Rgba, Sprite, TRANSPARENT};
use cozyui::keysyms::{KEY_Escape, KEY_Left, KEY_Return, KEY_Right, KEY_Tab, KEY_v};
use cozyui::layout::{
    move_rect, rects_intersect, required_screen_height, stretched_desk_source_x, widget_positions,
    Area, WidgetId, FWENDS_TOP, WIDGET_COUNT,
};
use cozyui::palette_color::{CRIMSON, LIME, PEACH, ROSE};
use cozyui::stretch::{draw_mapped, draw_stretched_desk_region};
use cozyui::text::font::{BitmapFont, FontAtlas, FontSpec};
use cozyui::text::input::KeyInput;

#[test]
fn move_rect_reports_whether_it_actually_moved() {
    let mut rect = Area::new(1, 2, 10, 10);
    assert!(!move_rect(&mut rect, 1, 2));
    assert!(move_rect(&mut rect, 3, 4));
    assert_eq!((rect.x, rect.y), (3, 4));
}

#[test]
fn rects_intersect_excludes_merely_touching_edges() {
    let a = Area::new(0, 0, 10, 10);
    assert!(rects_intersect(a, Area::new(5, 5, 10, 10)));
    assert!(!rects_intersect(a, Area::new(10, 0, 10, 10)));
    assert!(!rects_intersect(a, Area::new(20, 20, 10, 10)));
}

#[test]
fn stretched_desk_source_x_is_identity_when_target_no_wider_than_source() {
    assert_eq!(stretched_desk_source_x(0, 5, 10), 0);
    assert_eq!(stretched_desk_source_x(9, 5, 10), 9);
    assert_eq!(stretched_desk_source_x(9, 10, 10), 9);
}

#[test]
fn stretched_desk_source_x_degenerates_to_zero_for_a_hairline_source() {
    assert_eq!(stretched_desk_source_x(0, 100, 1), 0);
    assert_eq!(stretched_desk_source_x(50, 100, 0), 0);
}

#[test]
fn stretched_desk_source_x_preserves_edges_and_repeats_the_middle_column() {
    assert_eq!(stretched_desk_source_x(0, 11, 5), 0);
    assert_eq!(stretched_desk_source_x(1, 11, 5), 1);
    assert_eq!(stretched_desk_source_x(5, 11, 5), 2);
    assert_eq!(stretched_desk_source_x(9, 11, 5), 3);
    assert_eq!(stretched_desk_source_x(10, 11, 5), 4);
}

#[test]
fn widget_positions_always_pins_fwends_below_the_top_edge() {
    let heights = [0; WIDGET_COUNT];
    for screen_h in [0, 100, 2000] {
        let positions = widget_positions(&heights, screen_h);
        assert_eq!(positions[WidgetId::Fwends.index()].1, FWENDS_TOP as isize);
    }
}

#[test]
fn required_screen_height_floors_to_the_real_window_size() {
    let heights = [0; WIDGET_COUNT];
    assert_eq!(required_screen_height(&heights, 0, 100_000), 100_000);
}

#[test]
fn the_chat_counts_with_its_height_alone() {
    let mut heights = [0; WIDGET_COUNT];
    heights[WidgetId::Fwends.index()] = 5000;
    assert_eq!(required_screen_height(&heights, 0, 0), 5025);
}

/// A desktop whose widgets are all of one size and in their places.
fn desktop() -> Desktop {
    let sizes = vec![(40, 30); WIDGET_COUNT];
    let mut desktop = Desktop::new(&sizes, 300, 200);
    desktop.sync_dynamic_layout(40, 30, &[30; WIDGET_COUNT]);
    desktop
}

/// The middle of a widget.
fn middle(desktop: &Desktop, widget: WidgetId) -> (i16, i16) {
    let rect = desktop.rect_for(widget);
    ((rect.x + 20) as i16, (rect.y + 15) as i16)
}

#[test]
fn the_layout_settles() {
    let mut desktop = desktop();
    assert!(!desktop.sync_dynamic_layout(40, 30, &[30; WIDGET_COUNT]));
    assert!(desktop.sync_dynamic_layout(50, 30, &[30; WIDGET_COUNT]));
    assert_eq!(desktop.rect_for(WidgetId::Toodle).w, 50);
    assert!(desktop.set_min_height(2000));
    assert!(!desktop.set_min_height(2000));
    assert_eq!(desktop.height(&[30; WIDGET_COUNT]), 2000);
    assert!(desktop.sync_fwends_height(false, 400));
    assert!(!desktop.sync_fwends_height(false, 400));
    assert_eq!(desktop.width(), 713 + 40);
}

#[test]
fn a_press_goes_to_the_widget_under_it() {
    let mut desktop = desktop();
    assert_eq!(desktop.focus, WidgetId::Toodle);
    let (x, y) = middle(&desktop, WidgetId::Puter);
    assert_eq!(desktop.click(x, y), Some((WidgetId::Puter, 20, 15)));
    assert_eq!(desktop.focus, WidgetId::Puter);
    assert!(desktop.puter_pressed);
    assert_eq!(desktop.release(x, y), ReleaseStep::Puter(20, 15));
    assert_eq!(desktop.release(x, y), ReleaseStep::Nothing);
    desktop.puter_released(true);
    assert!(desktop.quit_requested);
    assert_eq!(desktop.click(0, 0), None);
    assert_eq!(desktop.focus, WidgetId::Puter);
}

#[test]
fn a_text_selection_keeps_the_pointer() {
    let mut desktop = desktop();
    let (x, y) = middle(&desktop, WidgetId::Fwends);
    desktop.click(x, y);
    desktop.clicked(WidgetId::Fwends, true);
    assert_eq!(desktop.cursor_at(0, 0), CursorStep::Known(CursorKind::Text));
    assert_eq!(
        desktop.motion(x, y),
        vec![MotionStep::DragText(WidgetId::Fwends, 20, 15)]
    );
    assert_eq!(desktop.release(x, y), ReleaseStep::EndTextDrag(WidgetId::Fwends));
    assert_eq!(desktop.text_drag, None);
}

#[test]
fn the_wheel_and_the_pointer_find_their_widgets() {
    let mut desktop = desktop();
    let (x, y) = middle(&desktop, WidgetId::Fwends);
    assert_eq!(desktop.scroll(x, y), Some((WidgetId::Fwends, 20, 15)));
    let (x, y) = middle(&desktop, WidgetId::Day);
    assert_eq!(desktop.scroll(x, y), None);
    assert_eq!(desktop.cursor_at(x, y), CursorStep::Known(CursorKind::Hand));
    let (x, y) = middle(&desktop, WidgetId::Wavey);
    desktop.click(x, y);
    assert_eq!(desktop.release(x, y), ReleaseStep::AskWavey);
    assert_eq!(
        desktop.motion(x, y),
        vec![MotionStep::Wavey(20, 15), MotionStep::HoverToodle(-1, -1)]
    );
}

#[test]
fn the_clipboard_is_read_for_a_paste_only() {
    let ctrl_v = KeyInput::new(KEY_v, "v", 4);
    let ctrl_shift_v = KeyInput::new(KEY_v, "V", 5);
    assert!(should_load_clipboard_for_paste(WidgetId::Toodle, &ctrl_v));
    assert!(!should_load_clipboard_for_paste(WidgetId::Puter, &ctrl_v));
    assert!(should_load_clipboard_for_paste(WidgetId::Puter, &ctrl_shift_v));
    assert!(!should_load_clipboard_for_paste(WidgetId::Day, &ctrl_v));
}

#[test]
fn a_batch_is_painted_once() {
    let mut batch = Batch::new(false);
    assert_eq!(batch.pause_millis(), 16);
    batch.handled_input();
    batch.moved(Some(WidgetId::Toodle));
    batch.moved(None);
    batch.released(Some(WidgetId::Puter));
    assert_eq!(batch.motion, Some(WidgetId::Toodle));
    batch.released(Some(WidgetId::Toodle));
    assert_eq!(batch.motion, None);
    assert!(!batch.exposed(2));
    assert!(batch.input);
    assert!(batch.exposed(0));
    assert!(!batch.input);
    assert_eq!(batch.pause_millis(), 1);
}

fn palette() -> Palette {
    Palette::from_colors((0..16).map(|i| Rgb { r: i * 16, g: 255 - i * 16, b: i * 8 }).collect())
}

fn filled(width: usize, height: usize, index: u8) -> Sprite {
    match Sprite::from_indices(width, height, vec![index; width * height]) {
        Ok(sprite) => sprite,
        Err(_) => panic!("the pixels are counted"),
    }
}

const EMPTY: Rgba = Rgba { r: 1, g: 1, b: 1, a: 255 };

#[test]
fn stretched_pictures_repeat_their_columns() {
    let image = match Sprite::from_indices(3, 1, vec![1, 2, 3]) {
        Ok(image) => image,
        Err(_) => panic!("the pixels are counted"),
    };
    let mut fb = Framebuffer::new(6, 2, EMPTY);
    draw_mapped(&mut fb, &image, &vec![0, 1, 1, 2], &vec![0, 0], 1, 0, 0, 1, &palette());
    let red: Vec<u8> = (0..6).map(|x| fb.pixel(x, 0).r).collect();
    assert_eq!(red, vec![1, 16, 32, 32, 48, 1]);
    assert_eq!(fb.pixel(2, 1), EMPTY);
}

#[test]
fn the_desk_stands_on_the_lower_edge() {
    let mut fb = Framebuffer::new(20, 100, EMPTY);
    draw_stretched_desk_region(&mut fb, &filled(5, 60, 3), &palette(), Rect::new(0, 0, 20, 100));
    assert_eq!(fb.pixel(10, 99).r, 48);
    assert_eq!(fb.pixel(10, 79).r, 48);
    assert_eq!(fb.pixel(10, 78), EMPTY);
    let mut fb = Framebuffer::new(20, 100, EMPTY);
    draw_stretched_desk_region(&mut fb, &filled(5, 60, ROSE), &palette(), Rect::new(0, 0, 20, 100));
    assert_eq!(fb.pixel(10, 99), EMPTY);
}

#[test]
fn widgets_are_painted_over_the_desk() {
    let desktop = desktop();
    let (w, h) = (desktop.width(), desktop.height(&[30; WIDGET_COUNT]));
    let mut fb = Framebuffer::new(w, h, EMPTY);
    let color = Rgba { r: 200, g: 100, b: 50, a: 255 };
    let hole = Rgba { r: 0, g: 0, b: 0, a: 0 };
    let layers: Vec<Framebuffer> = (0..WIDGET_COUNT)
        .map(|i| {
            let fill = if i == WidgetId::Day.index() { color } else { hole };
            Framebuffer::new(40, 30, fill)
        })
        .collect();
    let area = desktop.rect_for(WidgetId::Day);
    desktop.render_rect(&mut fb, &filled(5, 60, 3), &palette(), &layers, area);
    assert_eq!(fb.pixel(area.x as usize + 20, area.y as usize + 15), color);
    assert_eq!(fb.pixel(0, 0), EMPTY);
}

/// A font of glyphs without ink that advance six pixels.
fn font() -> BitmapFont {
    let mut file: Vec<u8> = Vec::new();
    {
        let mut encoder = png::Encoder::new(&mut file, 96, 64);
        encoder.set_color(png::ColorType::Rgb);
        encoder.set_depth(png::BitDepth::Eight);
        let mut writer = encoder.write_header().unwrap();
        writer.write_image_data(&[0; 96 * 64 * 3]).unwrap();
    }
    let spec = FontSpec {
        atlases: vec![FontAtlas { first_codepoint: 0, path: "font.png".to_string() }],
        block: 128,
        cell_w: 6,
        cell_h: 8,
        cols: 16,
        x_origin: 0,
        advance: vec![6; 128],
    };
    match BitmapFont::load(spec, &vec![file]) {
        Ok(font) => font,
        Err(_) => panic!("the atlas is whole"),
    }
}

fn house() -> Vec<Model> {
    models("Moss", "house/moss", "house/moss-deep")
}

fn fwends() -> Fwends {
    let art = FwendsArt {
        eraser: filled(45, 30, 1),
        lamp_on: filled(60, 100, 2),
        lamp_off: filled(60, 100, 3),
        slot_w: 40,
        slot_h: 50,
        sticky_w: 100,
        sticky_h: 80,
    };
    let prompt = "you are [[FREND_NAME]]".to_string();
    Fwends::load(art, font(), prompt, "Jodie".to_string(), house())
}

/// Types a text and presses Return.
fn say(fwends: &mut Fwends, text: &str) -> FwendsAction {
    let (x, y, _) = fwends.input_text_area();
    fwends.click(x as isize, y as isize, 0);
    assert!(fwends.focused);
    for ch in text.chars() {
        fwends.handle_key_press(&KeyInput::new(ch as u32, &ch.to_string(), 0), None);
    }
    fwends.handle_key_press(&KeyInput::new(KEY_Return, "\r", 0), None)
}

#[test]
fn a_message_is_sent_and_answered() {
    let mut fwends = fwends();
    assert_eq!(fwends.messages.len(), 1);
    let request = match say(&mut fwends, " hi ") {
        FwendsAction::Ask(request) => request,
        _ => panic!("a text is sent"),
    };
    assert_eq!(request.author, "Moss");
    assert!(!request.thinking);
    assert_eq!(request.model_id, "house/moss");
    assert_eq!(request.latest_text, "Jodie: hi");
    assert!(request.system_prompt.starts_with("you are Moss"));
    assert!(request.history.is_empty());
    assert_eq!(fwends.messages.len(), 1);
    assert_eq!(fwends.messages[0].text(), "hi");
    assert_eq!(fwends.layouts.len(), 2);
    assert_eq!(fwends.input.text(), "");
    assert!(matches!(say_nothing(&mut fwends), FwendsAction::Nothing));
    assert!(fwends.drain_reply(Ok("Moss: hello".to_string())));
    assert_eq!(fwends.messages[1].text(), "hello");
    assert_eq!(fwends.messages[1].author(), Some("Moss"));
    assert!(!fwends.drain_reply(Ok("again".to_string())));
}

fn say_nothing(fwends: &mut Fwends) -> FwendsAction {
    fwends.handle_key_press(&KeyInput::new(KEY_Return, "\r", 0), None)
}

#[test]
fn an_error_is_said_aloud() {
    let mut fwends = fwends();
    say(&mut fwends, "hi");
    assert!(fwends.drain_reply(Err("no route".to_string())));
    assert_eq!(fwends.messages[1].text(), "oops: no route");
}

#[test]
fn the_eraser_forgets_and_cancels() {
    let mut fwends = fwends();
    say(&mut fwends, "hi");
    let x = (W - 20) as isize;
    let y = (H - 10) as isize;
    assert_eq!(fwends.hit_test(x, y), Some(CursorKind::Hand));
    assert!(matches!(fwends.click(x, y, 0), FwendsAction::Cancel));
    assert_eq!(fwends.messages.len(), 1);
    assert!(fwends.awaiting.is_none());
    assert!(matches!(fwends.click(x, y, 0), FwendsAction::Nothing));
}

#[test]
fn the_lamp_and_the_fwend_are_switched() {
    let mut fwends = fwends();
    // The lamp is at (148, 158), and the input starts at 192.
    assert!(matches!(fwends.click(150, 160, 0), FwendsAction::Nothing));
    assert!(fwends.lamp_on);
    fwends.click(110, 210, 0);
    assert_eq!(fwends.selected_model, 1);
    fwends.handle_key_press(&KeyInput::new(KEY_Tab, "\t", 0), None);
    assert_eq!(fwends.selected_model, 2);
    fwends.handle_key_press(&KeyInput::new(KEY_Left, "", 0), None);
    assert_eq!(fwends.selected_model, 1);
    fwends.handle_key_press(&KeyInput::new(KEY_Right, "", 0), None);
    assert_eq!(fwends.selected_model, 2);
    let request = match say(&mut fwends, "hi") {
        FwendsAction::Ask(request) => request,
        _ => panic!("a text is sent"),
    };
    assert!(request.thinking);
    assert_eq!(request.author, "Qwen");
}

#[test]
fn arrows_move_in_the_text_while_it_is_edited() {
    let mut fwends = fwends();
    let (x, y, _) = fwends.input_text_area();
    fwends.click(x as isize, y as isize, 0);
    fwends.handle_key_press(&KeyInput::new('a' as u32, "a", 0), None);
    fwends.handle_key_press(&KeyInput::new(KEY_Left, "", 0), None);
    assert_eq!(fwends.selected_model, 0);
    assert_eq!(fwends.input.cursor(), 0);
    fwends.handle_key_press(&KeyInput::new(KEY_Escape, "", 0), None);
    assert!(!fwends.focused);
}

#[test]
fn a_reader_keeps_their_place() {
    let mut fwends = fwends();
    for _ in 0..8 {
        say(&mut fwends, "a longer message that takes some lines");
        fwends.drain_reply(Ok("and a longer reply that takes some lines too".to_string()));
    }
    let bottom = fwends.scroll_y;
    assert!(bottom > 0);
    assert!(fwends.scroll(20, 20, true));
    assert_eq!(fwends.scroll_y, bottom - 24);
    let place = fwends.scroll_y;
    fwends.set_height(H + 10);
    assert_eq!(fwends.scroll_y, place);
    assert!(!fwends.scroll(0, 0, true));
    while fwends.scroll(20, 20, false) {}
    say(&mut fwends, "more");
    assert!(fwends.scroll_y > place);
    assert!(fwends.scroll(20, 20, true));
    let reading = fwends.scroll_y;
    fwends.messages_changed();
    assert_eq!(fwends.scroll_y, reading);
    fwends.drain_reply(Ok("a reply below the fold".to_string()));
    assert_eq!(fwends.scroll_y, reading);
    for pair in fwends.layouts.windows(2) {
        assert!(pair[0].y + pair[0].h < pair[1].y);
    }
}

#[test]
fn shadows_are_darker_than_the_lamp() {
    let mut sprite = filled(2, 2, ROSE);
    let shade = lamp_shadow_color(&sprite, 5, 5, 6, 6, &palette()).unwrap();
    assert_eq!(shade, palette().color(CRIMSON));
    assert!(lamp_shadow_color(&sprite, 5, 5, 4, 5, &palette()).is_none());
    sprite = filled(2, 2, TRANSPARENT);
    assert!(lamp_shadow_color(&sprite, 5, 5, 5, 5, &palette()).is_none());
    let swap = yellow_swap();
    assert_eq!(swap.paint(LIME), Paint::Solid(PEACH));
    assert_eq!(swap.paint(3), Paint::Solid(3));
}

#[test]
fn fwends_have_their_icons() {
    assert_eq!(smol_icon_rect(&house(), "Qwen"), Some(Rect::new(0, 0, 11, 11)));
    assert_eq!(smol_icon_rect(&house(), "Deepseek"), Some(Rect::new(11, 0, 11, 11)));
    assert_eq!(smol_icon_rect(&house(), "Moss"), Some(Rect::new(0, 11, 11, 11)));
    assert_eq!(smol_icon_rect(&house(), "Kimi"), Some(Rect::new(11, 11, 11, 11)));
    assert_eq!(smol_icon_rect(&house(), "Nobody"), None);
    assert_eq!(pencil_place(10, 30), (10, 6));
    assert_eq!(pencil_place(-4, 3), (0, 0));
}
