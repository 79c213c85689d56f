//! To-do lists, the notebook and its archive.
use cozyui::fizzle::Size;
use cozyui::keysyms::{KEY_BackSpace, KEY_Return};
use cozyui::localtime::Tm;
use cozyui::palette_color::{BLACK, CRIMSON, GUNMETAL};
use cozyui::scene::Shape;
use cozyui::text::font::{BitmapFont, FontAtlas, FontSpec};
use cozyui::text::input::KeyInput;
use cozyui::todo::{appended_done, count_done_lines, TodoItem, TodoList, LINE_COUNT};
use cozyui::toodle::{
    archive_marker, archive_writes, checkbox_at, daily_done_path, done_file_path, line_at,
    read_marker, section_color, todo_file, MarkerFault, NotebookArt, PageColor, StagedWrite,
    Toodle, ToodleClick,
};
use cozyui::toodle_scene::{LineLook, PriorityIcon};

#[test]
fn todo_item_round_trips_checked_items() {
    let item = TodoItem::parse("- [x] ship the tiny desktop");
    assert!(item.checked);
    assert!(item.is_checkbox);
    assert_eq!(item.text, "ship the tiny desktop");
    assert_eq!(item.serialize(), "- [x] ship the tiny desktop");
}

#[test]
fn todo_item_round_trips_unchecked_checkbox() {
    let item = TodoItem::parse("- [ ] water the plants");
    assert!(!item.checked);
    assert!(item.is_checkbox);
    assert_eq!(item.text, "water the plants");
    assert_eq!(item.serialize(), "- [ ] water the plants");
}

#[test]
fn todo_item_keeps_plain_lines_verbatim() {
    let item = TodoItem::parse("## groceries");
    assert!(!item.is_checkbox);
    assert!(!item.checked);
    assert!(!item.renders_checkbox(false));
    assert!(!item.renders_checkbox(true));
    assert_eq!(item.serialize(), "## groceries");
}

#[test]
fn todo_list_serializes_checkboxes_and_plain_lines() {
    let mut list = TodoList { items: vec![TodoItem::default(); LINE_COUNT] };
    list.items[0] = TodoItem::parse("- [x] done");
    list.items[1] = TodoItem::parse("a heading");
    list.trim_trailing_blank_items();
    assert_eq!(list.serialized_text().lines().count(), 2);
    assert_eq!(list.serialized_text(), "- [x] done\na heading\n");
}

#[test]
fn todo_list_adds_blank_page_after_full_page() {
    let mut list = TodoList { items: Vec::new() };
    for line in 0..LINE_COUNT {
        list.item_mut(0, line).text = format!("todo {line}");
    }
    assert_eq!(list.page_count(), 2);
    list.items.pop();
    assert_eq!(list.page_count(), 1);
}

#[test]
fn todo_list_does_not_add_page_after_sparse_page() {
    let mut list = TodoList { items: vec![TodoItem::default(); LINE_COUNT] };
    list.items[0].text = "first".to_string();
    list.items[LINE_COUNT - 1].text = "last".to_string();
    assert_eq!(list.page_count(), 1);
}

#[test]
fn todo_list_uses_one_file_for_overflow_pages() {
    let mut list = TodoList { items: Vec::new() };
    list.item_mut(1, 0).text = "overflow".to_string();
    assert_eq!(list.serialized_text().lines().count(), LINE_COUNT + 1);
    assert!(list.serialized_text().ends_with("overflow\n"));
}

#[test]
fn todo_list_delete_item_shifts_later_items_up() {
    let mut list = TodoList { items: Vec::new() };
    list.item_mut(0, 0).text = "first".to_string();
    list.item_mut(0, 1).text = String::new();
    list.item_mut(0, 2).text = "third".to_string();
    assert!(list.delete_item(0, 1));
    assert_eq!(list.item(0, 0).text, "first");
    assert_eq!(list.item(0, 1).text, "third");
}

/// The files of an archive that was interrupted, by name: each write that its
/// marker tells of and whose contents are still waiting is carried out.
#[test]
fn archive_transaction_recovery_finishes_interrupted_commit() {
    let mut files: Vec<(String, String)> = vec![
        ("done.txt".to_string(), "old\n".to_string()),
        ("page.txt".to_string(), "[x] done\nnext\n\n\n\n\n".to_string()),
        ("done.tmp".to_string(), "old\ndone\n".to_string()),
        ("page.tmp".to_string(), "next\n\n\n\n\n\n".to_string()),
    ];
    let rename = |files: &mut Vec<(String, String)>, from: &str, to: &str| {
        if let Some(at) = files.iter().position(|(name, _)| name == from) {
            let (_, text) = files.remove(at);
            files.retain(|(name, _)| name != to);
            files.push((to.to_string(), text));
        }
    };
    let marker = archive_marker(&vec![
        StagedWrite { path: "done.txt".to_string(), temp_path: "done.tmp".to_string() },
        StagedWrite { path: "page.txt".to_string(), temp_path: "page.tmp".to_string() },
    ]);
    let writes = serde_json::from_str::<serde_json::Value>(&marker).unwrap();
    let writes = writes.as_array().unwrap();
    let done_temp_path = writes[0].get("temp_path").unwrap().as_str().unwrap();
    rename(&mut files, done_temp_path, "done.txt");

    let (writes, fault) = read_marker(&marker);
    assert!(fault.is_none());
    for write in &writes {
        rename(&mut files, &write.temp_path, &write.path);
    }
    let text = |name: &str| files.iter().find(|(n, _)| n == name).map(|(_, t)| t.as_str());
    assert_eq!(text("done.txt"), Some("old\ndone\n"));
    assert_eq!(text("page.txt"), Some("next\n\n\n\n\n\n"));
}

#[test]
fn broken_markers_are_told_apart() {
    assert!(matches!(read_marker("{").1, Some(MarkerFault::NotJson)));
    assert!(matches!(read_marker("{}").1, Some(MarkerFault::NotAnArray)));
    assert!(matches!(read_marker("[{\"temp_path\":\"t\"}]").1, Some(MarkerFault::MissingPath)));
    assert!(matches!(read_marker("[{\"path\":\"p\"}]").1, Some(MarkerFault::MissingTempPath)));
    let (writes, fault) =
        read_marker("[{\"path\":\"p \\\"1\\\"\",\"temp_path\":\"t\"},{\"path\":\"q\"}]");
    assert_eq!(writes.len(), 1);
    assert_eq!(writes[0].path, "p \"1\"");
    assert!(matches!(fault, Some(MarkerFault::MissingTempPath)));
}

#[test]
fn a_list_reads_back_what_it_writes() {
    let text = "- [x] a\n\nplain\n- [ ] b\n";
    let list = TodoList::load(text);
    assert_eq!(list.serialized_text(), text);
    assert_eq!(TodoList::load(&list.serialized_text()).serialized_text(), text);
    assert_eq!(TodoList::load("").serialized_text(), "");
}

#[test]
fn sweeping_files_the_checked_items() {
    let mut list = TodoList::load("- [x] one\n- [ ] two\n- [x]  \nplain\n");
    let (texts, changed) = list.sweep();
    assert!(changed);
    assert_eq!(texts, vec!["one".to_string()]);
    assert_eq!(list.serialized_text(), "- [ ] two\nplain\n");
}

#[test]
fn done_files_grow_at_their_end() {
    assert_eq!(appended_done("", &vec!["a".to_string()]), "- [x] a\n");
    assert_eq!(
        appended_done("old", &vec!["a".to_string(), "b".to_string()]),
        "old\n- [x] a\n- [x] b\n"
    );
    assert_eq!(count_done_lines("a\n\n  \nb\n"), 2);
}

#[test]
fn paths_of_the_notebook() {
    assert_eq!(
        done_file_path("/r", 2026, 3, 7, "frog"),
        "/r/toodle_done/2026-03-07_frog.md"
    );
    assert!(todo_file("/r", 0).starts_with("/r/"));
    let tm = Tm { tm_year: 126, tm_mon: 2, tm_mday: 7, ..Tm::default() };
    assert_eq!(
        daily_done_path("/r", &tm, 1),
        done_file_path("/r", 2026, 3, 7, "frog")
    );
}

#[test]
fn points_of_the_page() {
    assert_eq!(line_at(73), Some(0));
    assert_eq!(line_at(0), None);
    assert_eq!(checkbox_at(10, 71), Some(0));
    assert_eq!(checkbox_at(0, 71), None);
    assert!(matches!(section_color(0), PageColor::Pink));
    assert!(matches!(section_color(3), PageColor::Blue));
}

fn art() -> NotebookArt {
    NotebookArt {
        page: Size { w: 180, h: 200 },
        dice: Size { w: 20, h: 20 },
        eraser: Size { w: 30, h: 12 },
        goldstar: Size { w: 24, h: 24 },
    }
}

fn notebook(first: &str) -> Toodle {
    let lists = vec![
        TodoList::load(first),
        TodoList::load("- [ ] frog\n"),
        TodoList::load(""),
        TodoList::load(""),
    ];
    Toodle::load(lists, vec![2, 0, 0, 0], art())
}

/// A font whose glyphs have no ink and advance six pixels.
fn font() -> BitmapFont {
    let mut file: Vec<u8> = Vec::new();
    {
        let mut encoder = png::Encoder::new(&mut file, 96, 64);
        encoder.set_color(png::ColorType::Rgb);
        encoder.set_depth(png::BitDepth::Eight);
        let mut writer = encoder.write_header().unwrap();
        writer.write_image_data(&[0; 96 * 64 * 3]).unwrap();
    }
    let spec = FontSpec {
        atlases: vec![FontAtlas { first_codepoint: 0, path: "font.png".to_string() }],
        block: 128,
        cell_w: 6,
        cell_h: 8,
        cols: 16,
        x_origin: 0,
        advance: vec![6; 128],
    };
    match BitmapFont::load(spec, &vec![file]) {
        Ok(font) => font,
        Err(_) => panic!("the atlas is whole"),
    }
}

#[test]
fn saving_leaves_the_place_of_the_page() {
    let mut toodle = notebook("- [ ] one\n");
    assert_eq!(toodle.logical_page_count(), 4);
    toodle.todos[3].items = vec![TodoItem::default(); LINE_COUNT + 1];
    assert_eq!(toodle.logical_page_count(), 5);
    toodle.page = 4;
    toodle.dirty_sections[3] = true;
    assert_eq!(toodle.save_text(3).as_deref(), Some(""));
    assert_eq!(toodle.logical_page_count(), 4);
    assert_eq!(toodle.page, 4);
    let top = toodle.current_page_ref();
    assert_eq!((top.section, top.page), (3, 0));
    let front = toodle.front_page_ref();
    assert_eq!((front.section, front.page), (0, 0));
    toodle.mark_saved(3);
    assert!(toodle.save_text(3).is_none());
    assert!(!toodle.field.is_dragging());
    assert_eq!(toodle.field.cursor(), 0);
}

#[test]
fn typing_into_a_line_changes_its_item() {
    let mut toodle = notebook("- [ ] one\n");
    let font = font();
    match toodle.click(60, 73, 0) {
        ToodleClick::Focused(line) => assert_eq!(line, 0),
        _ => panic!("a press on a line edits it"),
    }
    toodle.field.set_cursor_end();
    let key = KeyInput::new('s' as u32, "s", 0);
    let asked = toodle.handle_key_press(&key, None, &font);
    assert!(asked.save.is_none());
    assert_eq!(toodle.todos[0].item(0, 0).text, "ones");
    assert!(toodle.save_due(500));
    assert!(!toodle.save_due(499));
    let enter = KeyInput::new(KEY_Return, "", 0);
    toodle.handle_key_press(&enter, None, &font);
    assert_eq!(toodle.focused_line, Some(1));
    let back = KeyInput::new(KEY_BackSpace, "", 0);
    let asked = toodle.handle_key_press(&back, None, &font);
    assert!(asked.copy.is_none());
}

#[test]
fn a_drag_selects_in_the_focused_line() {
    let mut toodle = notebook("- [ ] hello\n");
    assert!(!toodle.drag_text(3));
    toodle.click(60, 73, 0);
    toodle.begin_text_drag(1);
    assert!(toodle.text_dragging());
    assert!(toodle.drag_text(4));
    assert_eq!(toodle.field.selection_range(), Some((1, 4)));
    toodle.end_text_drag();
    assert!(!toodle.text_dragging());
}

#[test]
fn checking_an_item_saves_and_spins() {
    let mut toodle = notebook("- [ ] one\n");
    match toodle.click(25, 72, 0) {
        ToodleClick::Checked { section, spin } => {
            assert_eq!(section, 0);
            assert!(spin);
        }
        _ => panic!("a press on a box checks it"),
    }
    assert!(toodle.todos[0].item(0, 0).checked);
    assert_eq!(toodle.goldstar_count(), 3);
}

#[test]
fn archiving_files_done_items_first() {
    let mut toodle = notebook("- [x] one\n- [ ] two\n");
    let plan = toodle.plan_archive();
    let tm = Tm { tm_year: 126, tm_mon: 2, tm_mday: 7, ..Tm::default() };
    let existing = vec!["zero\n".to_string(), String::new(), String::new(), String::new()];
    let writes = archive_writes(&plan, "/r", &tm, &existing);
    assert_eq!(writes.len(), 2);
    assert_eq!(writes[0].path, done_file_path("/r", 2026, 3, 7, "urgent"));
    assert_eq!(writes[0].contents, "zero\n- [x] one\n");
    assert_eq!(writes[1].path, todo_file("/r", 0));
    assert_eq!(writes[1].contents, "- [ ] two\n");
    toodle.finish_archive(plan, vec![3, 0, 0, 0]);
    assert_eq!(toodle.todos[0].serialized_text(), "- [ ] two\n");
    assert_eq!(toodle.goldstar_count(), 3);
}

#[test]
fn the_dice_lands_on_an_open_item() {
    let mut toodle = notebook("- [x] one\nplain\n- [ ] two\n- [ ] three\n");
    toodle.roll_highlight(1);
    assert_eq!(toodle.highlighted, Some((0, 0, 3)));
    toodle.roll_highlight(0);
    assert_eq!(toodle.highlighted, Some((0, 0, 2)));
    let look = toodle.line_look(2);
    assert!(look.bold);
    assert_eq!(look.ink, CRIMSON);
}

#[test]
fn lines_look_as_their_items_are() {
    let mut toodle = notebook("- [x] one\nplain\n- [ ] \n");
    assert_eq!(
        toodle.line_look(0),
        LineLook { boxed: true, checked: true, bold: false, ink: BLACK, edited: false }
    );
    assert!(!toodle.line_look(1).boxed);
    assert!(toodle.hover(5, 25));
    assert_eq!(toodle.line_look(0).ink, GUNMETAL);
    assert_eq!(toodle.line_look(1).ink, BLACK);
    assert_eq!(toodle.priority_icon(), Some(PriorityIcon::Urgent));
}

#[test]
fn the_gold_star_shows_its_number_in_the_middle() {
    let toodle = notebook("- [x] one\n");
    let shapes = toodle.goldstar_shapes(&font());
    assert_eq!(shapes.len(), 2);
    match &shapes[1] {
        Shape::Text { text, x, y, .. } => {
            assert_eq!(text, "3");
            assert_eq!(*x, 14 + 180 - 24 + (24 - 6) / 2);
            assert_eq!(*y, 24 + (24 - 8) / 2);
        }
        _ => panic!("a number is written"),
    }
}

#[test]
fn the_pencil_lies_at_the_cursor() {
    let mut toodle = notebook("- [ ] one\n");
    assert!(toodle.focused_pencil_position(50, 80, 1).is_none());
    toodle.click(60, 73, 0);
    let place = toodle.focused_pencil_position(50, 80, 1).unwrap();
    assert_eq!((place.x, place.y), (50, 56));
    assert!(place.shadow);
    assert!(!place.second_line);
}

#[test]
fn pages_lie_under_the_front_one() {
    let toodle = notebook("- [ ] one\n");
    let stack = toodle.page_stack();
    assert_eq!(stack.len(), 4);
    assert_eq!((stack[3].x, stack[3].y, stack[3].section), (14, 0, 0));
    assert_eq!((stack[0].x, stack[0].y, stack[0].section), (26, 12, 3));
}
