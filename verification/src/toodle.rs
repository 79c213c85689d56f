//! The to-do notebook: four priorities, each on pages of six lines.
use vstd::prelude::*;

use crate::chars::{
    append_chars, append_str, decimal, decimal_chars, from_chars, string_views, to_chars, trim,
    trim_chars,
};
use crate::fizzle::Size;
use crate::graphics::{span, Index};
use crate::json::{
    array_items, array_text, item_count, items_of, json_items, json_pick, pair_records, pair_text,
    pair_views, pick, string_at, string_at_pointer,
};
use crate::localtime::Tm;
use crate::palette_color::{
    BLUE, BROWN, CREAM, CRIMSON, CYAN, GREEN, GUNMETAL, LAVENDER, LIME, ORANGE, PEACH, PINE, ROSE,
};
use crate::paths::{join_path, under};
use crate::text::edit::{char_len, key_effect, EditView, OutcomeView, TextEditOutcome};
use crate::text::field::{cursor_at, FieldView, TextField, TextLayout};
use crate::text::font::BitmapFont;
use crate::text::input::{edit_key, edit_key_of, EditKey, KeyInput, KeyView};
use crate::todo::{
    any_checked, appended_done, done_file_text, done_texts, item_at, list_text, padded, pages_of,
    trimmed, ItemView, TodoList, LINE_COUNT, MAX_PAGES_PER_SECTION,
};

verus! {

pub const SECTION_COUNT: usize = 4;

/// Where the front page starts.
pub const PAGE_OFFSET_X: usize = 14;

/// Between the front page and the dice.
pub const DICE_GAP: usize = 8;

pub const PAGE_STACK_OFFSET: usize = 4;

pub const SHADOW_X_OFFSET: usize = 1;

pub const SHADOW_Y_OFFSET: usize = 4;

pub const ERASER_X: usize = 0;

pub const ERASER_Y: usize = 21;

pub const CHECK_X: usize = 10;

pub const CHECK_W: usize = 13;

pub const CHECK_H: usize = 13;

pub const PAGE_CURL_X: usize = 140;

pub const PAGE_CURL_Y: usize = 168;

pub const MAX_TEXT_WIDTH: usize = 132;

pub const LAST_LINE_MAX_TEXT_WIDTH: usize = 108;

pub const PENULTIMATE_LINE_SHADOW_MAX_CHARS: usize = 17;

pub const LAST_LINE_SHADOW_MAX_CHARS: usize = 14;

/// Milliseconds that typing pauses before it is saved.
pub const SAVE_DEBOUNCE_MILLIS: u64 = 500;

pub const DONE_DIR_NAME: &'static str = "toodle_done";

pub const ARCHIVE_TRANSACTION_NAME: &'static str = "toodle_archive_transaction.json";

pub const DEFAULT_TOODLE_ROOT: &'static str = "~/Desktop/RemoteVault/✅ Toodle/";

/// The row of a text line; lines stand 22 rows apart.
pub open spec fn line_y(line: int) -> int {
    73 + 22 * line
}

/// The row of a line's checkbox.
pub open spec fn check_y(line: int) -> int {
    71 + 22 * line
}

/// The tag of a priority in the names of its files.
pub open spec fn tag(section: int) -> Seq<char> {
    if section % 4 == 0 {
        "urgent"@
    } else if section % 4 == 1 {
        "frog"@
    } else if section % 4 == 2 {
        "normal"@
    } else {
        "snail"@
    }
}

pub fn section_tag(section: usize) -> (r: &'static str)
    ensures
        r@ == tag(section as int),
{
    match section % 4 {
        0 => "urgent",
        1 => "frog",
        2 => "normal",
        _ => "snail",
    }
}

/// The name of a priority's file.
pub open spec fn file_name(section: int) -> Seq<char> {
    "toodle_"@ + tag(section) + ".md"@
}

pub fn todo_file(root: &str, section: usize) -> (r: String)
    ensures
        r@ == under(root@, file_name(section as int)),
{
    let mut name = to_chars("toodle_");
    append_str(&mut name, section_tag(section));
    append_str(&mut name, ".md");
    assert(name@ =~= file_name(section as int));
    let text = from_chars(&name);
    join_path(root, text.as_str())
}

pub fn done_dir(root: &str) -> (r: String)
    ensures
        r@ == under(root@, DONE_DIR_NAME@),
{
    join_path(root, DONE_DIR_NAME)
}

pub fn archive_transaction_path(root: &str) -> (r: String)
    ensures
        r@ == under(root@, ARCHIVE_TRANSACTION_NAME@),
{
    join_path(root, ARCHIVE_TRANSACTION_NAME)
}

/// A number with zeros in front, up to a width; the sign of a negative one
/// stands before the zeros and counts.
pub open spec fn zero_padded(n: int, width: nat) -> Seq<char> {
    if n < 0 {
        seq!['-'] + zeros_before(decimal((-n) as nat), (width - 1) as nat)
    } else {
        zeros_before(decimal(n as nat), width)
    }
}

pub open spec fn zeros_before(digits: Seq<char>, width: nat) -> Seq<char> {
    if digits.len() >= width {
        digits
    } else {
        Seq::new((width - digits.len()) as nat, |i: int| '0') + digits
    }
}

fn append_padded(out: &mut Vec<char>, n: i32, width: usize)
    requires
        width >= 1,
    ensures
        final(out)@ == old(out)@ + zero_padded(n as int, width as nat),
{
    let ghost start = out@;
    let magnitude: u64 = if n < 0 {
        (-(n as i64)) as u64
    } else {
        n as u64
    };
    let room: usize = if n < 0 {
        out.push('-');
        width - 1
    } else {
        width
    };
    let ghost signed = out@;
    let digits = decimal_chars(magnitude);
    let mut zeros: usize = 0;
    while digits.len() < room && zeros < room - digits.len()
        invariant
            zeros <= room,
            digits@.len() < room ==> zeros <= room - digits@.len(),
            digits@.len() >= room ==> zeros == 0,
            out@ =~= signed + Seq::new(zeros as nat, |i: int| '0'),
        decreases room - zeros,
    {
        out.push('0');
        zeros += 1;
    }
    append_chars(out, &digits);
    assert(out@ =~= signed + zeros_before(digits@, room as nat));
    assert(out@ =~= start + zero_padded(n as int, width as nat));
}

/// The name of a day's file of done items.
pub open spec fn done_name(year: int, month: int, day: int, tag: Seq<char>) -> Seq<char> {
    zero_padded(year, 4) + seq!['-'] + zero_padded(month, 2) + seq!['-'] + zero_padded(day, 2)
        + seq!['_'] + tag + ".md"@
}

/// The file of items with a tag that were done on a day.
pub fn done_file_path(root: &str, year: i32, month: i32, day: i32, tag: &str) -> (r: String)
    ensures
        r@ == under(
            under(root@, DONE_DIR_NAME@),
            done_name(year as int, month as int, day as int, tag@),
        ),
{
    let mut name: Vec<char> = Vec::new();
    append_padded(&mut name, year, 4);
    name.push('-');
    append_padded(&mut name, month, 2);
    name.push('-');
    append_padded(&mut name, day, 2);
    name.push('_');
    append_str(&mut name, tag);
    append_str(&mut name, ".md");
    assert(name@ =~= done_name(year as int, month as int, day as int, tag@));
    let dir = done_dir(root);
    let text = from_chars(&name);
    join_path(dir.as_str(), text.as_str())
}

/// Today's file of done items of a priority.
pub fn daily_done_path(root: &str, tm: &Tm, section: usize) -> (r: String)
    requires
        tm.tm_year <= i32::MAX - 1900,
        tm.tm_mon < i32::MAX,
    ensures
        r@ == under(
            under(root@, DONE_DIR_NAME@),
            done_name(tm.tm_year + 1900, tm.tm_mon + 1, tm.tm_mday as int, tag(section as int)),
        ),
{
    done_file_path(root, tm.tm_year + 1900, tm.tm_mon + 1, tm.tm_mday, section_tag(section))
}

#[derive(Clone, Copy, PartialEq, Eq, Structural, Debug)]
pub enum PageColor {
    Pink,
    Yellow,
    Green,
    Blue,
}

pub open spec fn page_color(section: int) -> PageColor {
    if section % 4 == 0 {
        PageColor::Pink
    } else if section % 4 == 1 {
        PageColor::Green
    } else if section % 4 == 2 {
        PageColor::Yellow
    } else {
        PageColor::Blue
    }
}

pub fn section_color(section: usize) -> (r: PageColor)
    ensures
        r == page_color(section as int),
{
    match section % 4 {
        0 => PageColor::Pink,
        1 => PageColor::Green,
        2 => PageColor::Yellow,
        _ => PageColor::Blue,
    }
}

/// What a palette index of the page's art becomes on a page of a color; under
/// the pencil of a second line, the shadow is the page's own rose.
pub open spec fn page_index(color: PageColor, second_line: bool, index: Index) -> Index {
    if second_line && index == LIME {
        remapped(color, ROSE)
    } else {
        remapped(color, index)
    }
}

pub open spec fn remapped(color: PageColor, index: Index) -> Index {
    match color {
        PageColor::Pink => if index == LIME {
            CRIMSON
        } else if index == PINE {
            ROSE
        } else {
            index
        },
        PageColor::Yellow => if index == LAVENDER {
            CYAN
        } else if index == PEACH {
            CREAM
        } else if index == LIME {
            CRIMSON
        } else if index == CRIMSON {
            BROWN
        } else if index == ROSE {
            ORANGE
        } else if index == PINE {
            ROSE
        } else {
            index
        },
        PageColor::Green => if index == PEACH {
            LIME
        } else if index == LIME {
            GUNMETAL
        } else if index == ORANGE {
            GREEN
        } else if index == CRIMSON {
            PINE
        } else if index == ROSE {
            GREEN
        } else if index == PINE {
            BROWN
        } else {
            index
        },
        PageColor::Blue => if index == PEACH {
            CYAN
        } else if index == LIME {
            BLUE
        } else if index == ORANGE {
            PINE
        } else if index == CRIMSON {
            PINE
        } else if index == ROSE {
            BLUE
        } else if index == PINE {
            GUNMETAL
        } else {
            index
        },
    }
}

pub fn page_remap(color: PageColor, index: Index) -> (r: Index)
    ensures
        r == remapped(color, index),
{
    match color {
        PageColor::Pink => if index == LIME {
            CRIMSON
        } else if index == PINE {
            ROSE
        } else {
            index
        },
        PageColor::Yellow => if index == LAVENDER {
            CYAN
        } else if index == PEACH {
            CREAM
        } else if index == LIME {
            CRIMSON
        } else if index == CRIMSON {
            BROWN
        } else if index == ROSE {
            ORANGE
        } else if index == PINE {
            ROSE
        } else {
            index
        },
        PageColor::Green => if index == PEACH {
            LIME
        } else if index == LIME {
            GUNMETAL
        } else if index == ORANGE {
            GREEN
        } else if index == CRIMSON {
            PINE
        } else if index == ROSE {
            GREEN
        } else if index == PINE {
            BROWN
        } else {
            index
        },
        PageColor::Blue => if index == PEACH {
            CYAN
        } else if index == LIME {
            BLUE
        } else if index == ORANGE || index == CRIMSON {
            PINE
        } else if index == ROSE {
            BLUE
        } else if index == PINE {
            GUNMETAL
        } else {
            index
        },
    }
}

/// The colors of a page's art, one for each of the palette's sixteen.
pub fn page_swap(color: PageColor, second_line: bool) -> (r: Vec<Index>)
    ensures
        r@ == Seq::new(16, |i: int| page_index(color, second_line, i as u8)),
{
    let mut out: Vec<Index> = Vec::new();
    let mut i: u8 = 0;
    while i < 16
        invariant
            i <= 16,
            out@ =~= Seq::new(i as nat, |j: int| page_index(color, second_line, j as u8)),
        decreases 16 - i,
    {
        let index = if second_line && i == LIME {
            page_remap(color, ROSE)
        } else {
            page_remap(color, i)
        };
        out.push(index);
        i += 1;
    }
    out
}

/// Whether a point, brought to the canvas, lies in a rectangle.
pub open spec fn in_box(x: int, y: int, left: int, top: int, w: int, h: int) -> bool {
    let px = if x > 0 {
        x
    } else {
        0
    };
    let py = if y > 0 {
        y
    } else {
        0
    };
    left <= px < left + w && top <= py < top + h
}

pub fn point_in_rect(x: i16, y: i16, left: usize, top: usize, width: usize, height: usize) -> (r:
    bool)
    requires
        left + width <= usize::MAX,
        top + height <= usize::MAX,
    ensures
        r == in_box(x as int, y as int, left as int, top as int, width as int, height as int),
{
    let px: usize = if x > 0 {
        x as usize
    } else {
        0
    };
    let py: usize = if y > 0 {
        y as usize
    } else {
        0
    };
    left <= px && px < left + width && top <= py && py < top + height
}

/// Whether a point on the page lies on a line's checkbox.
pub open spec fn on_checkbox(x: int, y: int, line: int) -> bool {
    CHECK_X <= x < CHECK_X + CHECK_W && check_y(line) <= y < check_y(line) + CHECK_H
}

pub fn checkbox_at(x: usize, y: usize) -> (r: Option<usize>)
    ensures
        match r {
            Some(line) => line < LINE_COUNT && on_checkbox(x as int, y as int, line as int),
            None => forall|line: int|
                0 <= line < LINE_COUNT ==> !on_checkbox(x as int, y as int, line),
        },
{
    let mut line: usize = 0;
    while line < LINE_COUNT
        invariant
            line <= LINE_COUNT,
            forall|j: int| 0 <= j < line ==> !on_checkbox(x as int, y as int, j),
        decreases LINE_COUNT - line,
    {
        let top: usize = 71 + 22 * line;
        if CHECK_X <= x && x < CHECK_X + CHECK_W && top <= y && y < top + CHECK_H {
            return Some(line);
        }
        line += 1;
    }
    None
}

/// Whether a row belongs to a text line.
pub open spec fn on_line(y: int, line: int) -> bool {
    line_y(line) - 8 <= y < line_y(line) + 13
}

pub fn line_at(y: usize) -> (r: Option<usize>)
    ensures
        match r {
            Some(line) => line < LINE_COUNT && on_line(y as int, line as int),
            None => forall|line: int| 0 <= line < LINE_COUNT ==> !on_line(y as int, line),
        },
{
    let mut line: usize = 0;
    while line < LINE_COUNT
        invariant
            line <= LINE_COUNT,
            forall|j: int| 0 <= j < line ==> !on_line(y as int, j),
        decreases LINE_COUNT - line,
    {
        let at: usize = 73 + 22 * line;
        if y >= at - 8 && y < at + 13 {
            return Some(line);
        }
        line += 1;
    }
    None
}

/// A row lies on one line at most, and a point on one checkbox at most.
pub proof fn lemma_lines_apart(x: int, y: int, a: int, b: int)
    ensures
        on_line(y, a) && on_line(y, b) ==> a == b,
        on_checkbox(x, y, a) && on_checkbox(x, y, b) ==> a == b,
{
}

/// How wide a line's text may be; the curl of the page shortens the last.
pub open spec fn text_width(line: int) -> int {
    if line == LINE_COUNT - 1 {
        LAST_LINE_MAX_TEXT_WIDTH as int
    } else {
        MAX_TEXT_WIDTH as int
    }
}

pub fn max_text_width(line: usize) -> (r: usize)
    ensures
        r == text_width(line as int),
{
    if line == LINE_COUNT - 1 {
        LAST_LINE_MAX_TEXT_WIDTH
    } else {
        MAX_TEXT_WIDTH
    }
}

/// The sizes of the notebook's pictures.
#[derive(Clone, Copy, PartialEq, Eq, Structural, Debug)]
pub struct NotebookArt {
    pub page: Size,
    pub dice: Size,
    pub eraser: Size,
    pub goldstar: Size,
}

impl NotebookArt {
    /// Pictures of a size that pixel arithmetic can hold, on a page that is at
    /// least as tall as the dice.
    pub open spec fn wf(self) -> bool {
        &&& self.page.w <= span()
        &&& self.page.h <= span()
        &&& self.dice.w <= span()
        &&& self.dice.h <= self.page.h
        &&& self.eraser.w <= span()
        &&& self.eraser.h <= span()
        &&& self.goldstar.w <= span()
        &&& self.goldstar.h <= span()
    }
}

/// A page of a priority.
#[derive(Clone, Copy, PartialEq, Eq, Structural, Debug)]
pub struct PageRef {
    pub section: usize,
    pub page: usize,
}

pub open spec fn list_views(lists: Seq<TodoList>) -> Seq<Seq<ItemView>> {
    Seq::new(lists.len(), |i: int| lists[i]@)
}

/// The pages of the priorities before one.
pub open spec fn pages_before(lists: Seq<Seq<ItemView>>, section: int) -> int
    decreases section,
{
    if section <= 0 {
        0
    } else {
        pages_before(lists, section - 1) + pages_of(lists[section - 1])
    }
}

/// All pages.
pub open spec fn page_total(lists: Seq<Seq<ItemView>>) -> int {
    pages_before(lists, lists.len() as int)
}

/// The priority and the page in it at a place, counted from a priority on; the
/// last page past the end.
pub open spec fn page_from(lists: Seq<Seq<ItemView>>, section: int, page: int) -> (int, int)
    decreases lists.len() - section,
{
    if section >= lists.len() - 1 {
        (
            section,
            if page < pages_of(lists[section]) {
                page
            } else {
                pages_of(lists[section]) - 1
            },
        )
    } else if page < pages_of(lists[section]) {
        (section, page)
    } else {
        page_from(lists, section + 1, page - pages_of(lists[section]))
    }
}

/// The place of a page of a priority; of its last page past its end.
pub open spec fn place_of(lists: Seq<Seq<ItemView>>, section: int, page: int) -> int {
    pages_before(lists, section) + if page < pages_of(lists[section]) {
        page
    } else {
        pages_of(lists[section]) - 1
    }
}

proof fn lemma_page_from(lists: Seq<Seq<ItemView>>, section: int, page: int)
    requires
        0 <= section < lists.len(),
        0 <= page,
    ensures
        ({
            let (s, p) = page_from(lists, section, page);
            &&& section <= s < lists.len()
            &&& 0 <= p < pages_of(lists[s])
            &&& page + pages_before(lists, section) < page_total(lists) ==> pages_before(lists, s)
                + p == page + pages_before(lists, section)
        }),
    decreases lists.len() - section,
{
    lemma_pages(lists, section);
    if section < lists.len() - 1 && page >= pages_of(lists[section]) {
        lemma_page_from(lists, section + 1, page - pages_of(lists[section]));
    }
}

proof fn lemma_pages(lists: Seq<Seq<ItemView>>, section: int)
    ensures
        1 <= pages_of(lists[section]) <= MAX_PAGES_PER_SECTION,
{
}

proof fn lemma_pages_before(lists: Seq<Seq<ItemView>>, section: int)
    requires
        0 <= section <= lists.len(),
    ensures
        section <= pages_before(lists, section) <= MAX_PAGES_PER_SECTION * section,
        pages_before(lists, section) <= page_total(lists),
        section < lists.len() ==> pages_before(lists, section) + pages_of(lists[section])
            <= page_total(lists),
    decreases lists.len() - section,
{
    lemma_before_bounds(lists, section);
    if section < lists.len() {
        lemma_pages_before(lists, section + 1);
        lemma_pages(lists, section);
    }
}

proof fn lemma_before_bounds(lists: Seq<Seq<ItemView>>, section: int)
    requires
        0 <= section <= lists.len(),
    ensures
        section <= pages_before(lists, section) <= MAX_PAGES_PER_SECTION * section,
    decreases section,
{
    if section > 0 {
        lemma_before_bounds(lists, section - 1);
        lemma_pages(lists, section - 1);
    }
}

/// Looking up a page by its place and giving the place of a page undo each
/// other.
pub proof fn lemma_places_undo(lists: Seq<Seq<ItemView>>, place: int, section: int, page: int)
    requires
        lists.len() > 0,
        0 <= place < page_total(lists),
        0 <= section < lists.len(),
        0 <= page < pages_of(lists[section]),
    ensures
        ({
            let (s, p) = page_from(lists, 0, place);
            place_of(lists, s, p) == place
        }),
        page_from(lists, 0, place_of(lists, section, page)) == (section, page),
        0 <= place_of(lists, section, page) < page_total(lists),
{
    lemma_page_from(lists, 0, place);
    lemma_pages_before(lists, section);
    lemma_find(lists, 0, section, page);
}

proof fn lemma_find(lists: Seq<Seq<ItemView>>, from: int, section: int, page: int)
    requires
        0 <= from <= section < lists.len(),
        0 <= page < pages_of(lists[section]),
    ensures
        page_from(
            lists,
            from,
            pages_before(lists, section) - pages_before(lists, from) + page,
        ) == (section, page),
    decreases section - from,
{
    if from < section {
        lemma_find(lists, from + 1, section, page);
        lemma_between(lists, from + 1, section);
    }
}

proof fn lemma_between(lists: Seq<Seq<ItemView>>, a: int, b: int)
    requires
        0 <= a <= b <= lists.len(),
    ensures
        pages_before(lists, a) <= pages_before(lists, b),
    decreases b - a,
{
    if a < b {
        lemma_between(lists, a, b - 1);
        lemma_pages(lists, b - 1);
    }
}

pub struct Toodle {
    pub todos: Vec<TodoList>,
    pub today_done_counts: Vec<usize>,
    pub page: usize,
    pub focused_line: Option<usize>,
    pub highlighted: Option<(usize, usize, usize)>,
    pub field: TextField,
    pub eraser_hovered: bool,
    pub dirty_sections: Vec<bool>,
    pub art: NotebookArt,
}

/// What a click on the notebook asks for.
#[derive(Clone, Copy, PartialEq, Eq, Structural, Debug)]
pub enum ToodleClick {
    /// The checked items are to be filed away.
    Archive,
    /// A checkbox changed: the priority is to be saved, and the toy spins or
    /// not.
    Checked { section: usize, spin: bool },
    /// A line is being edited; the cursor goes to where the click was.
    Focused(usize),
    Nothing,
}

/// What a key press asks for: a text for the clipboard, and a priority to save
/// now.
pub struct ToodleKey {
    pub copy: Option<String>,
    pub save: Option<usize>,
}

/// What a notebook holds.
#[verifier::ext_equal]
pub struct NotebookView {
    pub lists: Seq<Seq<ItemView>>,
    pub counts: Seq<usize>,
    pub page: int,
    pub focus: Option<int>,
    pub highlight: Option<(int, int, int)>,
    pub field: FieldView,
    pub hovered: bool,
    pub dirty: Seq<bool>,
    pub art: NotebookArt,
}

impl View for Toodle {
    type V = NotebookView;

    open spec fn view(&self) -> NotebookView {
        NotebookView {
            lists: list_views(self.todos@),
            counts: self.today_done_counts@,
            page: self.page as int,
            focus: match self.focused_line {
                Some(line) => Some(line as int),
                None => None,
            },
            highlight: match self.highlighted {
                Some((section, page, line)) => Some((section as int, page as int, line as int)),
                None => None,
            },
            field: self.field@,
            hovered: self.eraser_hovered,
            dirty: self.dirty_sections@,
            art: self.art,
        }
    }
}

/// A field with another text: the cursor stays as far as it reaches.
pub open spec fn loaded(field: FieldView, text: Seq<char>) -> FieldView {
    FieldView {
        text,
        edit: EditView {
            undo: Seq::empty(),
            ..cursor_at(field.edit, field.edit.cursor, text.len())
        },
        ..field
    }
}

/// An item with its box the other way round.
pub open spec fn toggled(item: ItemView) -> ItemView {
    ItemView { checked: !item.checked, ..item }
}

pub open spec fn clip_low(n: int) -> int {
    if n > 0 {
        n
    } else {
        0
    }
}

impl NotebookView {
    /// The page on top, which clicks and keys go to; the last one when there are
    /// not as many.
    pub open spec fn top(self) -> (int, int) {
        page_from(self.lists, 0, self.page)
    }

    /// The page that is shown in front; when there are not as many, counting goes
    /// on from the first.
    pub open spec fn front(self) -> (int, int) {
        page_from(self.lists, 0, self.page % page_total(self.lists))
    }

    /// The item on a line of the page in front.
    pub open spec fn front_item(self, line: int) -> ItemView {
        let (section, page) = self.front();
        item_at(self.lists[section], page, line)
    }

    /// The item on a line of the top page.
    pub open spec fn top_item(self, line: int) -> ItemView {
        let (section, page) = self.top();
        item_at(self.lists[section], page, line)
    }

    /// What the dice lands on: the candidate that a number picks.
    pub open spec fn rolled(self, random: int) -> Option<(int, int, int)> {
        let (section, page) = self.top();
        let lines = candidates(self.lists[section], page, LINE_COUNT as int);
        if lines.len() == 0 {
            None
        } else {
            Some((section, page, lines[random % lines.len() as int]))
        }
    }

    pub open spec fn on_dice(self, x: int, y: int) -> bool {
        in_box(
            x,
            y,
            PAGE_OFFSET_X + self.art.page.w + DICE_GAP,
            self.art.page.h - self.art.dice.h,
            self.art.dice.w as int,
            self.art.dice.h as int,
        )
    }

    pub open spec fn on_eraser(self, x: int, y: int) -> bool {
        in_box(
            x,
            y,
            ERASER_X as int,
            ERASER_Y as int,
            self.art.eraser.w as int,
            self.art.eraser.h as int,
        )
    }

    /// With a list in place of a priority's, and one of its pages on top.
    pub open spec fn with_list(self, section: int, page: int, list: Seq<ItemView>) -> NotebookView {
        let lists = self.lists.update(section, list);
        NotebookView { lists, page: place_of(lists, section, page), ..self }
    }

    /// With the text of the focused line in the field.
    pub open spec fn field_loaded(self) -> NotebookView {
        match self.focus {
            Some(line) => NotebookView {
                field: loaded(self.field, self.top_item(line).text),
                ..self
            },
            None => self,
        }
    }

    /// With the box of a line of the top page the other way round; a highlight
    /// on a line that is now checked goes.
    pub open spec fn box_toggled(self, line: int) -> NotebookView {
        let (section, page) = self.top();
        let i = page * LINE_COUNT + line;
        let item = toggled(self.top_item(line));
        let changed = self.with_list(
            section,
            page,
            trimmed(padded(self.lists[section], i + 1).update(i, item)),
        );
        if item.checked && self.highlight == Some((section, page, line)) {
            NotebookView { highlight: None, ..changed }
        } else {
            changed
        }
    }

    /// What a click does, and what it asks for.
    pub open spec fn clicked(self, x: int, y: int, random: int) -> (NotebookView, ToodleClick) {
        let v = NotebookView {
            field: FieldView {
                edit: EditView { drag: None, ..self.field.edit },
                ..self.field
            },
            ..self
        };
        let unfocused = NotebookView { focus: None, ..v };
        let page_x = clip_low(x) - PAGE_OFFSET_X;
        let page_y = clip_low(y);
        if v.on_eraser(x, y) {
            (v, ToodleClick::Archive)
        } else if v.on_dice(x, y) {
            (
                NotebookView { highlight: v.rolled(random), ..unfocused },
                ToodleClick::Nothing,
            )
        } else if page_x < 0 {
            (unfocused, ToodleClick::Nothing)
        } else if page_x >= PAGE_CURL_X && page_y >= PAGE_CURL_Y {
            (
                NotebookView { page: (v.page + 1) % page_total(v.lists), ..unfocused },
                ToodleClick::Nothing,
            )
        } else if box_line(page_x, page_y) is Some && v.top_item(
            box_line(page_x, page_y)->0,
        ).is_checkbox {
            let line = box_line(page_x, page_y)->0;
            let section = v.top().0;
            (
                v.box_toggled(line),
                ToodleClick::Checked {
                    section: section as usize,
                    spin: !v.top_item(line).checked && (section == 0 || section == 1),
                },
            )
        } else {
            match text_line(page_y) {
                Some(line) => (
                    NotebookView { focus: Some(line), ..v }.field_loaded(),
                    ToodleClick::Focused(line as usize),
                ),
                None => (unfocused, ToodleClick::Nothing),
            }
        }
    }

    /// Whether a key press may lead from here to another state, with a text to
    /// copy and a priority to save.
    pub open spec fn key_leads_to(
        self,
        key: KeyView,
        clipboard: Option<Seq<char>>,
        font: &BitmapFont,
        after: NotebookView,
        copy: Option<Seq<char>>,
        save: Option<int>,
    ) -> bool {
        match self.focus {
            None => after == self && copy is None && save is None,
            Some(line) => {
                let (section, page) = self.top();
                let list = self.lists[section];
                let i = page * LINE_COUNT + line;
                if edit_key_of(key) is Backspace && self.field.text.len() == 0 {
                    let shorter = if i < list.len() {
                        trimmed(list.remove(i))
                    } else {
                        list
                    };
                    let moved = self.with_list(section, page, shorter).field_loaded();
                    &&& after == NotebookView {
                        field: FieldView {
                            edit: cursor_at(moved.field.edit, 0, moved.field.text.len()),
                            ..moved.field
                        },
                        ..moved
                    }
                    &&& copy is None
                    &&& save == (if i < list.len() {
                        Some(section)
                    } else {
                        None
                    })
                } else {
                    exists|field: FieldView, outcome: OutcomeView|
                        {
                            &&& #[trigger] field_key(
                                self.field,
                                line,
                                key,
                                clipboard,
                                font,
                                field,
                                outcome,
                            )
                            &&& save is None
                            &&& match outcome {
                                OutcomeView::Handled { changed, copy: copied } => {
                                    &&& copy == copied
                                    &&& after == if changed {
                                        let typed = self.with_list(
                                            section,
                                            page,
                                            padded(list, i + 1).update(
                                                i,
                                                ItemView {
                                                    text: field.text,
                                                    ..self.top_item(line)
                                                },
                                            ),
                                        );
                                        NotebookView {
                                            field,
                                            dirty: self.dirty.update(section, true),
                                            ..typed
                                        }
                                    } else {
                                        NotebookView { field, ..self }
                                    }
                                },
                                OutcomeView::Unhandled => {
                                    &&& copy is None
                                    &&& after == match edit_key_of(key) {
                                        EditKey::Enter => {
                                            let next = NotebookView {
                                                field,
                                                focus: Some(
                                                    if line + 1 < LINE_COUNT {
                                                        line + 1
                                                    } else {
                                                        LINE_COUNT - 1
                                                    },
                                                ),
                                                ..self
                                            }.field_loaded();
                                            NotebookView {
                                                field: FieldView {
                                                    edit: cursor_at(
                                                        next.field.edit,
                                                        next.field.text.len(),
                                                        next.field.text.len(),
                                                    ),
                                                    ..next.field
                                                },
                                                ..next
                                            }
                                        },
                                        EditKey::Escape => NotebookView {
                                            field,
                                            focus: None,
                                            ..self
                                        },
                                        _ => NotebookView { field, ..self },
                                    }
                                },
                            }
                        }
                }
            },
        }
    }
}

/// Whether a key press may turn a field of a line into another.
pub open spec fn field_key(
    before: FieldView,
    line: int,
    key: KeyView,
    clipboard: Option<Seq<char>>,
    font: &BitmapFont,
    after: FieldView,
    outcome: OutcomeView,
) -> bool {
    let layout = TextLayout { font, width: text_width(line) as usize };
    &&& key_effect(
        |c: Seq<char>, a: bool| a == before.allows(layout, c),
        key,
        clipboard,
        before.edit,
        before.text,
        after.edit,
        after.text,
        outcome,
    )
    &&& after.max_chars == before.max_chars
    &&& after.max_lines == before.max_lines
}

/// The line whose checkbox a point on the page lies on.
pub open spec fn box_line(x: int, y: int) -> Option<int> {
    let line = (y - 71) / 22;
    if 0 <= line < LINE_COUNT && on_checkbox(x, y, line) {
        Some(line)
    } else {
        None
    }
}

/// The text line that a row belongs to.
pub open spec fn text_line(y: int) -> Option<int> {
    let line = (y - 65) / 22;
    if 0 <= line < LINE_COUNT && on_line(y, line) {
        Some(line)
    } else {
        None
    }
}

/// Whether an item can be what the dice lands on.
pub open spec fn rollable(item: ItemView) -> bool {
    item.is_checkbox && !item.checked && trim(item.text).len() > 0
}

/// The first lines of a page that the dice can land on.
pub open spec fn candidates(items: Seq<ItemView>, page: int, lines: int) -> Seq<int>
    decreases lines,
{
    if lines <= 0 {
        Seq::empty()
    } else {
        let before = candidates(items, page, lines - 1);
        if rollable(item_at(items, page, lines - 1)) {
            before.push(lines - 1)
        } else {
            before
        }
    }
}

impl Toodle {
    /// Four lists with their counts, a place that some notebook has a page at,
    /// and a line that a page has. Saving may shorten the lists under the place.
    pub open spec fn wf(&self) -> bool {
        &&& self.todos@.len() == SECTION_COUNT
        &&& self.today_done_counts@.len() == SECTION_COUNT
        &&& self.dirty_sections@.len() == SECTION_COUNT
        &&& self.focused_line matches Some(line) ==> line < LINE_COUNT
        &&& self.page < SECTION_COUNT * MAX_PAGES_PER_SECTION
        &&& self.art.wf()
    }

    pub fn logical_page_count(&self) -> (r: usize)
        requires
            self.todos@.len() == SECTION_COUNT,
        ensures
            r == page_total(self@.lists),
            SECTION_COUNT <= r <= 16,
    {
        let mut count: usize = 0;
        let mut i: usize = 0;
        while i < self.todos.len()
            invariant
                i <= self.todos@.len(),
                self.todos@.len() == SECTION_COUNT,
                i <= count <= 4 * i,
                count == pages_before(self@.lists, i as int),
            decreases self.todos@.len() - i,
        {
            count = count + self.todos[i].page_count();
            i += 1;
        }
        count
    }

    pub fn page_ref(&self, page: usize) -> (r: PageRef)
        requires
            self.todos@.len() == SECTION_COUNT,
        ensures
            (r.section as int, r.page as int) == page_from(self@.lists, 0, page as int),
            r.section < SECTION_COUNT,
            r.page < pages_of(self@.lists[r.section as int]),
            r.page < MAX_PAGES_PER_SECTION,
    {
        let mut left: usize = page;
        let mut section: usize = 0;
        while section < SECTION_COUNT - 1
            invariant
                section <= SECTION_COUNT - 1,
                self.todos@.len() == SECTION_COUNT,
                page_from(self@.lists, 0, page as int) == page_from(
                    self@.lists,
                    section as int,
                    left as int,
                ),
            decreases SECTION_COUNT - section,
        {
            let pages: usize = self.todos[section].page_count();
            if left < pages {
                return PageRef { section, page: left };
            }
            left = left - pages;
            section += 1;
        }
        let pages: usize = self.todos[section].page_count();
        PageRef {
            section,
            page: if left < pages {
                left
            } else {
                pages - 1
            },
        }
    }

    pub fn current_page_ref(&self) -> (r: PageRef)
        requires
            self.todos@.len() == SECTION_COUNT,
        ensures
            (r.section as int, r.page as int) == self@.top(),
            r.section < SECTION_COUNT,
            r.page < pages_of(self@.lists[r.section as int]),
            r.page < MAX_PAGES_PER_SECTION,
    {
        self.page_ref(self.page)
    }

    /// The page that is shown in front.
    pub fn front_page_ref(&self) -> (r: PageRef)
        requires
            self.wf(),
        ensures
            (r.section as int, r.page as int) == self@.front(),
            r.section < SECTION_COUNT,
            r.page < pages_of(self@.lists[r.section as int]),
            r.page < MAX_PAGES_PER_SECTION,
    {
        let total: usize = self.logical_page_count();
        self.page_ref(self.page % total)
    }

    pub fn page_index_for(&self, section: usize, section_page: usize) -> (r: usize)
        requires
            self.todos@.len() == SECTION_COUNT,
            section < SECTION_COUNT,
        ensures
            r == place_of(self@.lists, section as int, section_page as int),
            r < page_total(self@.lists),
            r < SECTION_COUNT * MAX_PAGES_PER_SECTION,
    {
        let mut before: usize = 0;
        let mut i: usize = 0;
        while i < section
            invariant
                i <= section,
                section < SECTION_COUNT,
                self.todos@.len() == SECTION_COUNT,
                before <= 4 * i,
                before == pages_before(self@.lists, i as int),
            decreases section - i,
        {
            before = before + self.todos[i].page_count();
            i += 1;
        }
        let pages: usize = self.todos[section].page_count();
        proof {
            lemma_pages_before(self@.lists, section as int);
        }
        if section_page < pages {
            before + section_page
        } else {
            before + (pages - 1)
        }
    }

    /// Puts a page of a priority on top, or its last page.
    pub fn keep_section_page_visible(&mut self, page: PageRef)
        requires
            old(self).todos@.len() == SECTION_COUNT,
            page.section < SECTION_COUNT,
        ensures
            final(self).page == place_of(
                old(self)@.lists,
                page.section as int,
                page.page as int,
            ),
            final(self).page < page_total(old(self)@.lists),
            final(self).page < SECTION_COUNT * MAX_PAGES_PER_SECTION,
            *final(self) == (Toodle { page: final(self).page, ..*old(self) }),
    {
        self.page = self.page_index_for(page.section, page.page);
    }

    /// How far the stack reaches past the front page.
    pub open spec fn stack(&self) -> int {
        (page_total(self@.lists) - 1) * PAGE_STACK_OFFSET
    }

    pub fn stack_offset(&self) -> (r: usize)
        requires
            self.wf(),
        ensures
            r == self.stack(),
            r <= 60,
    {
        (self.logical_page_count() - 1) * PAGE_STACK_OFFSET
    }

    /// How wide the notebook is.
    pub open spec fn width_is(&self, r: usize) -> bool {
        r == ({
            let stack = PAGE_OFFSET_X + self.art.page.w + self.stack() + SHADOW_X_OFFSET;
            let dice = PAGE_OFFSET_X + self.art.page.w + DICE_GAP + self.art.dice.w;
            if stack > dice {
                stack
            } else {
                dice
            }
        })
    }

    pub fn width(&self) -> (r: usize)
        requires
            self.wf(),
        ensures
            self.width_is(r),
    {
        let stack: usize = PAGE_OFFSET_X + self.art.page.w + self.stack_offset() + SHADOW_X_OFFSET;
        let dice: usize = PAGE_OFFSET_X + self.art.page.w + DICE_GAP + self.art.dice.w;
        if stack > dice {
            stack
        } else {
            dice
        }
    }

    pub fn height(&self) -> (r: usize)
        requires
            self.wf(),
        ensures
            r == self.art.page.h + self.stack() + SHADOW_Y_OFFSET,
    {
        self.art.page.h + self.stack_offset() + SHADOW_Y_OFFSET
    }

    /// The top left corner of the dice: right of the front page, at its bottom.
    pub fn dice_pos(&self) -> (r: (usize, usize))
        requires
            self.art.wf(),
        ensures
            r.0 == PAGE_OFFSET_X + self.art.page.w + DICE_GAP,
            r.1 == self.art.page.h - self.art.dice.h,
    {
        (PAGE_OFFSET_X + self.art.page.w + DICE_GAP, self.art.page.h - self.art.dice.h)
    }

    pub fn dice_at(&self, x: i16, y: i16) -> (r: bool)
        requires
            self.art.wf(),
        ensures
            r == self@.on_dice(x as int, y as int),
    {
        let (left, top) = self.dice_pos();
        point_in_rect(x, y, left, top, self.art.dice.w, self.art.dice.h)
    }

    pub fn eraser_at(&self, x: i16, y: i16) -> (r: bool)
        requires
            self.art.wf(),
        ensures
            r == self@.on_eraser(x as int, y as int),
    {
        point_in_rect(x, y, ERASER_X, ERASER_Y, self.art.eraser.w, self.art.eraser.h)
    }

    /// Whether checking an item on the top page makes the toy spin: the urgent
    /// and the frog pages do.
    pub fn twirl_on_check_page(&self) -> (r: bool)
        requires
            self.todos@.len() == SECTION_COUNT,
        ensures
            r == (self@.top().0 == 0 || self@.top().0 == 1),
    {
        match section_color(self.current_page_ref().section) {
            PageColor::Pink => true,
            PageColor::Green => true,
            _ => false,
        }
    }

    /// Highlights the candidate that a number picks; none when the page has
    /// none.
    pub fn roll_highlight(&mut self, random: usize)
        requires
            old(self).todos@.len() == SECTION_COUNT,
        ensures
            final(self)@ == (NotebookView {
                highlight: old(self)@.rolled(random as int),
                ..old(self)@
            }),
            *final(self) == (Toodle { highlighted: final(self).highlighted, ..*old(self) }),
    {
        let PageRef { section, page } = self.current_page_ref();
        let mut lines: Vec<usize> = Vec::new();
        let ghost items = self@.lists[section as int];
        let mut line: usize = 0;
        while line < LINE_COUNT
            invariant
                line <= LINE_COUNT,
                section < SECTION_COUNT,
                page < MAX_PAGES_PER_SECTION,
                self.todos@.len() == SECTION_COUNT,
                items == self@.lists[section as int],
                *self == *old(self),
                lines@.len() == candidates(items, page as int, line as int).len(),
                forall|k: int|
                    0 <= k < lines@.len() ==> #[trigger] lines@[k] as int == candidates(
                        items,
                        page as int,
                        line as int,
                    )[k],
            decreases LINE_COUNT - line,
        {
            let item = self.todos[section].item(page, line);
            let text = to_chars(item.text.as_str());
            if item.is_checkbox && !item.checked && trim_chars(&text).len() > 0 {
                lines.push(line);
            }
            line += 1;
        }
        self.highlighted = if lines.len() == 0 {
            None
        } else {
            let k: usize = random % lines.len();
            assert(lines@[k as int] as int == candidates(
                items,
                page as int,
                LINE_COUNT as int,
            )[k as int]);
            Some((section, page, lines[k]))
        };
    }

    /// What a movement over the notebook leads to.
    pub open spec fn hover_leads_to(&self, x: i16, y: i16, after: &Self, r: bool) -> bool {
        &&& after.eraser_hovered == (x >= 0 && y >= 0 && self@.on_eraser(
            x as int,
            y as int,
        ))
        &&& r == (after.eraser_hovered != self.eraser_hovered)
        &&& *after == (Toodle { eraser_hovered: after.eraser_hovered, ..*self })
    }

    /// Takes note of whether the pointer is over the eraser; answers whether
    /// that changed.
    pub fn hover(&mut self, x: i16, y: i16) -> (r: bool)
        requires
            old(self).art.wf(),
        ensures
            old(self).hover_leads_to(x, y, final(self), r),
    {
        let was_hovered = self.eraser_hovered;
        self.eraser_hovered = x >= 0 && y >= 0 && self.eraser_at(x, y);
        was_hovered != self.eraser_hovered
    }

    /// Puts the text of the focused line into the field.
    fn load_focused_field(&mut self)
        requires
            old(self).wf(),
        ensures
            final(self).wf(),
            final(self)@ == old(self)@.field_loaded(),
            *final(self) == (Toodle { field: final(self).field, ..*old(self) }),
    {
        if let Some(line) = self.focused_line {
            let PageRef { section, page } = self.current_page_ref();
            let item = self.todos[section].item(page, line);
            self.field.set_text(item.text.as_str());
        }
    }

    /// What a click does. The number picks what the dice lands on.
    pub fn click(&mut self, x: i16, y: i16, random: usize) -> (r: ToodleClick)
        requires
            old(self).wf(),
        ensures
            final(self).wf(),
            (final(self)@, r) == old(self)@.clicked(x as int, y as int, random as int),
    {
        self.field.end_drag();
        if self.eraser_at(x, y) {
            return ToodleClick::Archive;
        }
        if self.dice_at(x, y) {
            self.roll_highlight(random);
            self.focused_line = None;
            return ToodleClick::Nothing;
        }
        let abs_x: usize = if x > 0 {
            x as usize
        } else {
            0
        };
        let abs_y: usize = if y > 0 {
            y as usize
        } else {
            0
        };
        if abs_x < PAGE_OFFSET_X {
            self.focused_line = None;
            return ToodleClick::Nothing;
        }
        let page_x: usize = abs_x - PAGE_OFFSET_X;
        if page_x >= PAGE_CURL_X && abs_y >= PAGE_CURL_Y {
            let total: usize = self.logical_page_count();
            self.page = (self.page + 1) % total;
            self.focused_line = None;
            return ToodleClick::Nothing;
        }
        let at_box = checkbox_at(page_x, abs_y);
        let at_line = line_at(abs_y);
        proof {
            lemma_box_line(page_x as int, abs_y as int, at_box);
            lemma_text_line(abs_y as int, at_line);
        }
        if let Some(line) = at_box {
            let PageRef { section, page } = self.current_page_ref();
            let item = self.todos[section].item(page, line);
            if item.is_checkbox {
                return self.toggle_box(section, page, line);
            }
        }
        self.focused_line = at_line;
        match at_line {
            Some(line) => {
                self.load_focused_field();
                ToodleClick::Focused(line)
            },
            None => ToodleClick::Nothing,
        }
    }

    fn toggle_box(&mut self, section: usize, page: usize, line: usize) -> (r: ToodleClick)
        requires
            old(self).wf(),
            (section as int, page as int) == old(self)@.top(),
            section < SECTION_COUNT,
            page < MAX_PAGES_PER_SECTION,
            line < LINE_COUNT,
            old(self)@.top_item(line as int).is_checkbox,
        ensures
            final(self).wf(),
            final(self)@ == old(self)@.box_toggled(line as int),
            r == (ToodleClick::Checked {
                section,
                spin: !old(self)@.top_item(line as int).checked && (section == 0 || section == 1),
            }),
    {
        let ghost before = self@;
        let mut list = self.todos[section].copy();
        let item = list.item_mut(page, line);
        item.checked = !item.checked;
        let checked = item.checked;
        list.trim_trailing_blank_items();
        self.replace_list(section, page, list);
        if checked {
            if let Some((s, p, l)) = self.highlighted {
                if s == section && p == page && l == line {
                    self.highlighted = None;
                }
            }
        }
        let spin = checked && section < 2;
        ToodleClick::Checked { section, spin }
    }

    /// Puts a list in place of a priority's, and one of its pages on top.
    fn replace_list(&mut self, section: usize, page: usize, list: TodoList)
        requires
            old(self).wf(),
            section < SECTION_COUNT,
        ensures
            final(self).wf(),
            final(self)@ == old(self)@.with_list(section as int, page as int, list@),
    {
        self.todos.set(section, list);
        proof {
            assert(list_views(self.todos@) =~= old(self)@.lists.update(section as int, list@));
        }
        self.page = self.page_index_for(section, page);
    }

    pub fn end_text_drag(&mut self)
        ensures
            final(self)@ == (NotebookView {
                field: FieldView {
                    edit: EditView { drag: None, ..old(self)@.field.edit },
                    ..old(self)@.field
                },
                ..old(self)@
            }),
    {
        self.field.end_drag();
    }

    pub fn text_dragging(&self) -> (r: bool)
        ensures
            r == (self@.field.edit.drag is Some),
    {
        self.field.is_dragging()
    }

    /// How selecting in a line begins.
    pub open spec fn drag_begins(&self, index: usize, after: &Self) -> bool {
        after@ == (NotebookView {
            field: FieldView {
                edit: EditView {
                    cursor: crate::text::edit::clip(index as nat, self@.field.text.len()),
                    anchor: None,
                    drag: Some(
                        crate::text::edit::clip(index as nat, self@.field.text.len()),
                    ),
                    ..self@.field.edit
                },
                ..self@.field
            },
            ..self@
        })
    }

    /// Starts selecting text in the focused line at a character.
    pub fn begin_text_drag(&mut self, index: usize)
        ensures
            old(self).drag_begins(index, final(self)),
    {
        self.field.begin_drag(index);
    }

    /// How selecting in a line goes on.
    pub open spec fn drag_goes_on(&self, index: usize, after: &Self, r: bool) -> bool {
        let field = self@.field;
        let at = crate::text::edit::clip(index as nat, field.text.len());
        let edit = if self@.focus is Some && field.edit.drag is Some {
            EditView {
                cursor: at,
                anchor: if field.edit.drag == Some(at) {
                    None
                } else {
                    field.edit.drag
                },
                ..field.edit
            }
        } else {
            field.edit
        };
        &&& after@ == (NotebookView {
            field: FieldView { edit, ..field },
            ..self@
        })
        &&& r == (field.edit.cursor != edit.cursor || field.edit.anchor != edit.anchor)
    }

    /// Extends a mouse selection to the character under the pointer, while a
    /// line is edited; says whether anything changed.
    pub fn drag_text(&mut self, index: usize) -> (r: bool)
        requires
            old(self).wf(),
        ensures
            final(self).wf(),
            old(self).drag_goes_on(index, final(self), r),
    {
        if self.focused_line.is_none() {
            return false;
        }
        self.field.drag_to(index)
    }

    /// What a key press does to the focused line.
    #[verifier::rlimit(40)]
    pub fn handle_key_press(
        &mut self,
        input: &KeyInput,
        clipboard_text: Option<&str>,
        font: &BitmapFont,
    ) -> (r: ToodleKey)
        requires
            old(self).wf(),
            font.wf(),
            old(self)@.field.text.len() + 1 <= usize::MAX,
            clipboard_text matches Some(paste) ==> old(self)@.field.text.len() + paste@.len()
                <= usize::MAX,
        ensures
            final(self).wf(),
            old(self)@.key_leads_to(
                input@,
                crate::paths::str_view(clipboard_text),
                font,
                final(self)@,
                crate::json::text_view(r.copy),
                match r.save {
                    Some(section) => Some(section as int),
                    None => None,
                },
            ),
    {
        let line: usize = match self.focused_line {
            None => {
                return ToodleKey { copy: None, save: None };
            },
            Some(line) => line,
        };
        let PageRef { section, page } = self.current_page_ref();
        let key = edit_key(input);
        let empty = self.field.text().unicode_len() == 0;
        let deleting = match key {
            EditKey::Backspace => empty,
            _ => false,
        };
        if deleting {
            let mut list = self.todos[section].copy();
            let deleted = list.delete_item(page, line);
            if deleted {
                list.trim_trailing_blank_items();
            }
            self.replace_list(section, page, list);
            self.load_focused_field();
            self.field.set_cursor(0);
            return ToodleKey {
                copy: None,
                save: if deleted {
                    Some(section)
                } else {
                    None
                },
            };
        }
        let ghost before = self@;
        let layout = TextLayout { font, width: max_text_width(line) };
        let outcome = self.field.handle_key(input, clipboard_text, &layout);
        let ghost field = self@.field;
        let ghost outcome_view = outcome@;
        proof {
            assert(field_key(
                before.field,
                line as int,
                input@,
                crate::paths::str_view(clipboard_text),
                font,
                field,
                outcome_view,
            ));
        }
        match outcome {
            TextEditOutcome::Handled { changed, copy } => {
                if changed {
                    let mut list = self.todos[section].copy();
                    let text = self.field.text().to_owned();
                    let item = list.item_mut(page, line);
                    item.text = text;
                    self.dirty_sections.set(section, true);
                    self.replace_list(section, page, list);
                }
                ToodleKey { copy, save: None }
            },
            TextEditOutcome::Unhandled => {
                match key {
                    EditKey::Enter => {
                        self.focused_line = Some(
                            if line + 1 < LINE_COUNT {
                                line + 1
                            } else {
                                LINE_COUNT - 1
                            },
                        );
                        self.load_focused_field();
                        self.field.set_cursor_end();
                    },
                    EditKey::Escape => {
                        self.focused_line = None;
                    },
                    _ => {},
                }
                ToodleKey { copy: None, save: None }
            },
        }
    }
}

proof fn lemma_box_line(x: int, y: int, found: Option<usize>)
    requires
        0 <= y,
        match found {
            Some(line) => line < LINE_COUNT && on_checkbox(x, y, line as int),
            None => forall|line: int| 0 <= line < LINE_COUNT ==> !on_checkbox(x, y, line),
        },
    ensures
        box_line(x, y) == (match found {
            Some(line) => Some(line as int),
            None => None,
        }),
{
    if let Some(line) = found {
        assert((y - 71) / 22 == line);
    } else if 0 <= (y - 71) / 22 < LINE_COUNT {
        assert(!on_checkbox(x, y, (y - 71) / 22));
    }
}

proof fn lemma_text_line(y: int, found: Option<usize>)
    requires
        0 <= y,
        match found {
            Some(line) => line < LINE_COUNT && on_line(y, line as int),
            None => forall|line: int| 0 <= line < LINE_COUNT ==> !on_line(y, line),
        },
    ensures
        text_line(y) == (match found {
            Some(line) => Some(line as int),
            None => None,
        }),
{
    if let Some(line) = found {
        assert((y - 65) / 22 == line);
    } else if 0 <= (y - 65) / 22 < LINE_COUNT {
        assert(!on_line(y, (y - 65) / 22));
    }
}

/// A page of the stack as it is drawn.
#[derive(Clone, Copy, PartialEq, Eq, Structural, Debug)]
pub struct PageCard {
    pub image: usize,
    pub section: usize,
    pub x: usize,
    pub y: usize,
}

/// The page a number of places under the top one: each lies a little right of
/// and below the one over it, and all from the fourth on look alike.
pub open spec fn card(v: NotebookView, depth: int) -> PageCard {
    PageCard {
        image: if depth < 3 {
            depth as usize
        } else {
            3
        },
        section: page_from(v.lists, 0, (v.page + depth) % page_total(v.lists)).0 as usize,
        x: (PAGE_OFFSET_X + depth * 4) as usize,
        y: (depth * 4) as usize,
    }
}

/// The checked items that say something, counted.
pub open spec fn done_count(items: Seq<ItemView>) -> nat {
    done_texts(items).len()
}

/// What filing away does to each priority: the lists that stay, the texts to
/// file, and which lists changed.
pub struct ArchivePlan {
    pub lists: Vec<TodoList>,
    pub archived: Vec<Vec<String>>,
    pub changed: Vec<bool>,
}

pub open spec fn text_lists(v: Seq<Vec<String>>) -> Seq<Seq<Seq<char>>> {
    Seq::new(v.len(), |i: int| string_views(v[i]@))
}

impl ArchivePlan {
    /// Whether the plan is the one for given lists.
    pub open spec fn for_lists(&self, lists: Seq<Seq<ItemView>>) -> bool {
        &&& list_views(self.lists@) == Seq::new(lists.len(), |i: int| TodoList::swept(lists[i]))
        &&& text_lists(self.archived@) == Seq::new(lists.len(), |i: int| done_texts(lists[i]))
        &&& self.changed@ == Seq::new(lists.len(), |i: int| any_checked(lists[i]))
    }
}

/// A file and what is to be written to it.
pub struct FileWrite {
    pub path: String,
    pub contents: String,
}

pub type WriteView = (Seq<char>, Seq<char>);

pub open spec fn write_views(writes: Seq<FileWrite>) -> Seq<WriteView> {
    Seq::new(writes.len(), |i: int| (writes[i].path@, writes[i].contents@))
}

/// Writes of the files of done items of the first priorities: those with
/// something to file, after what the files hold.
pub open spec fn done_writes(
    root: Seq<char>,
    tm: Tm,
    archived: Seq<Seq<Seq<char>>>,
    existing: Seq<Seq<char>>,
    n: int,
) -> Seq<WriteView>
    decreases n,
{
    if n <= 0 {
        Seq::empty()
    } else {
        let before = done_writes(root, tm, archived, existing, n - 1);
        if archived[n - 1].len() == 0 {
            before
        } else {
            before.push(
                (
                    under(
                        under(root, DONE_DIR_NAME@),
                        done_name(tm.tm_year + 1900, tm.tm_mon + 1, tm.tm_mday as int, tag(n - 1)),
                    ),
                    done_file_text(existing[n - 1], archived[n - 1]),
                ),
            )
        }
    }
}

/// Writes of the lists of the first priorities: those that changed.
pub open spec fn list_writes(
    root: Seq<char>,
    lists: Seq<Seq<ItemView>>,
    changed: Seq<bool>,
    n: int,
) -> Seq<WriteView>
    decreases n,
{
    if n <= 0 {
        Seq::empty()
    } else {
        let before = list_writes(root, lists, changed, n - 1);
        if changed[n - 1] {
            before.push((under(root, file_name(n - 1)), list_text(lists[n - 1])))
        } else {
            before
        }
    }
}

/// The files that filing away writes, in order: the done items first, so that
/// none is lost, then the lists without them. `existing` holds what today's
/// files of done items hold.
pub fn archive_writes(
    plan: &ArchivePlan,
    root: &str,
    tm: &Tm,
    existing: &Vec<String>,
) -> (r: Vec<FileWrite>)
    requires
        plan.lists@.len() == SECTION_COUNT,
        plan.archived@.len() == SECTION_COUNT,
        plan.changed@.len() == SECTION_COUNT,
        existing@.len() == SECTION_COUNT,
        tm.tm_year <= i32::MAX - 1900,
        tm.tm_mon < i32::MAX,
    ensures
        write_views(r@) == done_writes(
            root@,
            *tm,
            text_lists(plan.archived@),
            string_views(existing@),
            SECTION_COUNT as int,
        ) + list_writes(root@, list_views(plan.lists@), plan.changed@, SECTION_COUNT as int),
{
    let mut writes: Vec<FileWrite> = Vec::new();
    let ghost archived = text_lists(plan.archived@);
    let ghost held = string_views(existing@);
    let mut i: usize = 0;
    while i < SECTION_COUNT
        invariant
            i <= SECTION_COUNT,
            plan.archived@.len() == SECTION_COUNT,
            existing@.len() == SECTION_COUNT,
            tm.tm_year <= i32::MAX - 1900,
            tm.tm_mon < i32::MAX,
            archived == text_lists(plan.archived@),
            held == string_views(existing@),
            write_views(writes@) =~= done_writes(root@, *tm, archived, held, i as int),
        decreases SECTION_COUNT - i,
    {
        assert(archived[i as int].len() == plan.archived@[i as int]@.len());
        if plan.archived[i].len() > 0 {
            let path = daily_done_path(root, tm, i);
            let contents = appended_done(existing[i].as_str(), &plan.archived[i]);
            let ghost before = writes@;
            writes.push(FileWrite { path, contents });
            assert(write_views(writes@) =~= write_views(before).push((path@, contents@)));
        }
        i += 1;
    }
    let ghost first = write_views(writes@);
    let ghost lists = list_views(plan.lists@);
    let mut j: usize = 0;
    while j < SECTION_COUNT
        invariant
            j <= SECTION_COUNT,
            plan.lists@.len() == SECTION_COUNT,
            plan.changed@.len() == SECTION_COUNT,
            lists == list_views(plan.lists@),
            write_views(writes@) =~= first + list_writes(root@, lists, plan.changed@, j as int),
        decreases SECTION_COUNT - j,
    {
        if plan.changed[j] {
            let path = todo_file(root, j);
            let contents = plan.lists[j].serialized_text();
            let ghost before = writes@;
            writes.push(FileWrite { path, contents });
            assert(write_views(writes@) =~= write_views(before).push((path@, contents@)));
        }
        j += 1;
    }
    writes
}

impl Toodle {
    /// The notebook as it starts.
    pub open spec fn starts(
        todos: Vec<TodoList>,
        today_done_counts: Vec<usize>,
        art: NotebookArt,
        r: Self,
    ) -> bool {
        &&& r@.lists == list_views(todos@)
        &&& r@.counts == today_done_counts@
        &&& r@.page == 0
        &&& r@.focus is None
        &&& r@.highlight is None
        &&& r@.field.text.len() == 0
        &&& r@.field.edit == (EditView {
            cursor: 0,
            anchor: None,
            undo: Seq::empty(),
            drag: None,
        })
        &&& r@.field.max_chars == usize::MAX
        &&& r@.field.max_lines == 2
        &&& !r@.hovered
        &&& r@.dirty == seq![false, false, false, false]
        &&& r@.art == art
    }

    /// A notebook with the given lists and today's counts of done items, open
    /// at its first page.
    pub fn load(todos: Vec<TodoList>, today_done_counts: Vec<usize>, art: NotebookArt) -> (r: Self)
        requires
            todos@.len() == SECTION_COUNT,
            today_done_counts@.len() == SECTION_COUNT,
            art.wf(),
        ensures
            r.wf(),
            Self::starts(todos, today_done_counts, art, r),
    {
        let mut dirty_sections: Vec<bool> = Vec::new();
        dirty_sections.push(false);
        dirty_sections.push(false);
        dirty_sections.push(false);
        dirty_sections.push(false);
        assert(dirty_sections@ =~= seq![false, false, false, false]);
        Toodle {
            todos,
            today_done_counts,
            page: 0,
            focused_line: None,
            highlighted: None,
            field: TextField::new(usize::MAX, 2),
            eraser_hovered: false,
            dirty_sections,
            art,
        }
    }

    /// The pages of the stack, from the lowest to the front one.
    pub fn page_stack(&self) -> (r: Vec<PageCard>)
        requires
            self.wf(),
        ensures
            r@.len() == page_total(self@.lists),
            forall|k: int|
                0 <= k < r@.len() ==> #[trigger] r@[k] == card(self@, r@.len() - 1 - k),
    {
        let total: usize = self.logical_page_count();
        let mut out: Vec<PageCard> = Vec::new();
        let mut depth: usize = total;
        while depth > 0
            invariant
                depth <= total <= 16,
                self.wf(),
                total == page_total(self@.lists),
                out@.len() == total - depth,
                forall|k: int|
                    0 <= k < out@.len() ==> #[trigger] out@[k] == card(self@, total - 1 - k),
            decreases depth,
        {
            depth = depth - 1;
            let logical: usize = (self.page + depth) % total;
            let PageRef { section, .. } = self.page_ref(logical);
            let image: usize = if depth < 3 {
                depth
            } else {
                3
            };
            out.push(PageCard { image, section, x: PAGE_OFFSET_X + depth * 4, y: depth * 4 });
        }
        out
    }

    /// The gold star's number: items of the top page's priority done today and
    /// filed, and checked ones not filed yet.
    pub fn goldstar_count(&self) -> (r: usize)
        requires
            self.wf(),
            self@.counts[self@.top().0] + done_count(self@.lists[self@.top().0]) <= usize::MAX,
        ensures
            r == self@.counts[self@.top().0] + done_count(self@.lists[self@.top().0]),
    {
        let section: usize = self.current_page_ref().section;
        let list = &self.todos[section];
        let ghost items = self@.lists[section as int];
        let mut count: usize = self.today_done_counts[section];
        let ghost filed = count;
        let mut i: usize = 0;
        assert(items.take(0) =~= Seq::empty());
        while i < list.items.len()
            invariant
                i <= list.items@.len(),
                items == list@,
                filed + done_count(items) <= usize::MAX,
                count == filed + done_count(items.take(i as int)),
            decreases list.items@.len() - i,
        {
            proof {
                assert(items.take(i + 1).drop_last() =~= items.take(i as int));
                lemma_done_prefix(items, i + 1);
            }
            let item = &list.items[i];
            let text = to_chars(item.text.as_str());
            if item.checked && trim_chars(&text).len() > 0 {
                count += 1;
            }
            i += 1;
        }
        assert(items.take(items.len() as int) =~= items);
        count
    }

    /// Whether the pencil's shadow falls beside a line's text.
    pub open spec fn shadow_falls(&self, line: usize, r: bool) -> bool {
        r == ({
            let len = self@.top_item(line as int).text.len();
            if line == 4 {
                len <= PENULTIMATE_LINE_SHADOW_MAX_CHARS
            } else if line == 5 {
                len <= LAST_LINE_SHADOW_MAX_CHARS
            } else {
                true
            }
        })
    }

    /// Whether the pencil's shadow fits beside a line's text: on the last two
    /// lines only next to a short one.
    pub fn should_draw_pencil_shadow(&self, line: usize) -> (r: bool)
        requires
            self.wf(),
            line < LINE_COUNT,
        ensures
            self.shadow_falls(line, r),
    {
        let PageRef { section, page } = self.current_page_ref();
        let item = self.todos[section].item(page, line);
        let len: usize = char_len(item.text.as_str());
        if line == 4 {
            len <= PENULTIMATE_LINE_SHADOW_MAX_CHARS
        } else if line == 5 {
            len <= LAST_LINE_SHADOW_MAX_CHARS
        } else {
            true
        }
    }

    /// Whether typed changes are to be saved now: some are not saved, and
    /// typing has paused for long enough.
    pub fn save_due(&self, idle_millis: u64) -> (r: bool)
        ensures
            r == (self@.dirty.contains(true) && idle_millis >= SAVE_DEBOUNCE_MILLIS),
    {
        let mut i: usize = 0;
        let mut dirty = false;
        while i < self.dirty_sections.len()
            invariant
                i <= self.dirty_sections@.len(),
                dirty == self.dirty_sections@.take(i as int).contains(true),
            decreases self.dirty_sections@.len() - i,
        {
            proof {
                let now = self.dirty_sections@.take(i + 1);
                let before = self.dirty_sections@.take(i as int);
                assert(now =~= before.push(self.dirty_sections@[i as int]));
                if before.contains(true) {
                    let k = choose|k: int| 0 <= k < before.len() && before[k] == true;
                    assert(now[k] == true);
                }
                if now.contains(true) {
                    let k = choose|k: int| 0 <= k < now.len() && now[k] == true;
                    if k < i {
                        assert(before[k] == true);
                    }
                }
                if self.dirty_sections@[i as int] {
                    assert(now[i as int] == true);
                }
            }
            dirty = dirty || self.dirty_sections[i];
            i += 1;
        }
        assert(self.dirty_sections@.take(self.dirty_sections@.len() as int)
            =~= self.dirty_sections@);
        dirty && idle_millis >= SAVE_DEBOUNCE_MILLIS
    }

    /// Drops the blank items at the end of a priority; gives the text of what
    /// is left.
    fn trim_section(&mut self, section: usize) -> (r: String)
        requires
            old(self).wf(),
            section < SECTION_COUNT,
        ensures
            ({
                let list = trimmed(old(self)@.lists[section as int]);
                let lists = old(self)@.lists.update(section as int, list);
                &&& final(self)@ == (NotebookView { lists, ..old(self)@ })
                &&& r@ == list_text(list)
            }),
            *final(self) == (Toodle { todos: final(self).todos, ..*old(self) }),
            final(self).todos@.len() == SECTION_COUNT,
    {
        let mut list = self.todos[section].copy();
        list.trim_trailing_blank_items();
        let text = list.serialized_text();
        let ghost before = self@;
        self.todos.set(section, list);
        assert(self@.lists =~= before.lists.update(section as int, list@));
        text
    }

    /// What saving the section in front leads to.
    pub open spec fn section_saved(&self, after: &Self, r: (usize, String)) -> bool {
        &&& r.0 == self@.top().0
        &&& ({
            let list = trimmed(self@.lists[r.0 as int]);
            let lists = self@.lists.update(r.0 as int, list);
            &&& after@ == (NotebookView {
                lists,
                page: place_of(lists, self@.top().0, self@.top().1),
                ..self@
            })
            &&& r.1@ == list_text(list)
        })
    }

    /// The text to save of the priority on top, whatever has changed in it.
    /// Saving drops blank items at its end and leaves the same page on top, or
    /// the priority's last one.
    pub fn save_current_section(&mut self) -> (r: (usize, String))
        requires
            old(self).wf(),
        ensures
            final(self).wf(),
            old(self).section_saved(final(self), r),
    {
        let top = self.current_page_ref();
        let text = self.trim_section(top.section);
        self.keep_section_page_visible(top);
        (top.section, text)
    }

    /// What saving a section leads to.
    pub open spec fn dirty_saved(&self, section: usize, after: &Self, r: Option<String>) -> bool {
        if self@.dirty[section as int] {
            let list = trimmed(self@.lists[section as int]);
            let lists = self@.lists.update(section as int, list);
            &&& after@ == (NotebookView { lists, ..self@ })
            &&& r matches Some(text) && text@ == list_text(list)
        } else {
            r is None && after@ == self@
        }
    }

    /// The text to save of a priority with unsaved changes. Saving drops blank
    /// items at its end; the place of the page on top stays.
    pub fn save_text(&mut self, section: usize) -> (r: Option<String>)
        requires
            old(self).wf(),
            section < SECTION_COUNT,
        ensures
            final(self).wf(),
            old(self).dirty_saved(section, final(self), r),
    {
        if !self.dirty_sections[section] {
            return None;
        }
        Some(self.trim_section(section))
    }

    /// What a section that was saved leads to.
    pub open spec fn saved_leads_to(&self, section: usize, after: &Self) -> bool {
        after@ == (NotebookView {
            dirty: self@.dirty.update(section as int, false),
            ..self@
        })
    }

    /// Takes note that a priority has been saved.
    pub fn mark_saved(&mut self, section: usize)
        requires
            old(self).wf(),
            section < SECTION_COUNT,
        ensures
            final(self).wf(),
            old(self).saved_leads_to(section, final(self)),
    {
        self.dirty_sections.set(section, false);
    }

    /// What filing the checked items away does.
    pub fn plan_archive(&self) -> (r: ArchivePlan)
        requires
            self.wf(),
        ensures
            r.for_lists(self@.lists),
    {
        let mut lists: Vec<TodoList> = Vec::new();
        let mut archived: Vec<Vec<String>> = Vec::new();
        let mut changed: Vec<bool> = Vec::new();
        let ghost all = self@.lists;
        let mut i: usize = 0;
        while i < SECTION_COUNT
            invariant
                i <= SECTION_COUNT,
                self.wf(),
                all == self@.lists,
                list_views(lists@) =~= Seq::new(i as nat, |j: int| TodoList::swept(all[j])),
                text_lists(archived@) =~= Seq::new(i as nat, |j: int| done_texts(all[j])),
                changed@ =~= Seq::new(i as nat, |j: int| any_checked(all[j])),
            decreases SECTION_COUNT - i,
        {
            let mut list = self.todos[i].copy();
            let (texts, swept) = list.sweep();
            let ghost (lists0, archived0) = (lists@, archived@);
            lists.push(list);
            archived.push(texts);
            changed.push(swept);
            proof {
                assert(list_views(lists@) =~= list_views(lists0).push(list@));
                assert(text_lists(archived@) =~= text_lists(archived0).push(string_views(texts@)));
            }
            i += 1;
        }
        ArchivePlan { lists, archived, changed }
    }

    /// What an archive leads to.
    pub open spec fn archive_ends(
        &self,
        plan: ArchivePlan,
        today_done_counts: Vec<usize>,
        after: &Self,
    ) -> bool {
        after@ == ({
            let lists = Seq::new(
                self@.lists.len(),
                |i: int| TodoList::swept(self@.lists[i]),
            );
            NotebookView {
                lists,
                counts: today_done_counts@,
                page: place_of(lists, self@.top().0, self@.top().1),
                focus: None,
                ..self@
            }
        })
    }

    /// Takes a finished plan over, with today's new counts of done items; the
    /// page on top stays in its priority, and no line is edited any more.
    pub fn finish_archive(&mut self, plan: ArchivePlan, today_done_counts: Vec<usize>)
        requires
            old(self).wf(),
            plan.for_lists(old(self)@.lists),
            today_done_counts@.len() == SECTION_COUNT,
        ensures
            final(self).wf(),
            old(self).archive_ends(plan, today_done_counts, final(self)),
    {
        let current = self.current_page_ref();
        proof {
            assert(list_views(plan.lists@).len() == old(self)@.lists.len());
        }
        self.todos = plan.lists;
        self.today_done_counts = today_done_counts;
        self.page = self.page_index_for(current.section, current.page);
        self.focused_line = None;
    }
}

proof fn lemma_done_prefix(items: Seq<ItemView>, n: int)
    requires
        0 <= n <= items.len(),
    ensures
        done_count(items.take(n)) <= done_count(items),
    decreases items.len() - n,
{
    if n < items.len() {
        lemma_done_prefix(items, n + 1);
        assert(items.take(n + 1).drop_last() =~= items.take(n));
    } else {
        assert(items.take(n) =~= items);
    }
}

/// A write that an archive began: the file it is for, and the file that holds
/// its contents until it is moved there.
pub struct StagedWrite {
    pub path: String,
    pub temp_path: String,
}

pub open spec fn staged_views(writes: Seq<StagedWrite>) -> Seq<(Seq<char>, Seq<char>)> {
    Seq::new(writes.len(), |i: int| (writes[i].path@, writes[i].temp_path@))
}

/// The marker that lets an interrupted archive be finished: its writes as a
/// JSON array.
pub open spec fn marker(writes: Seq<(Seq<char>, Seq<char>)>) -> Seq<char> {
    array_text(Seq::new(writes.len(), |i: int| pair_text("path"@, "temp_path"@, writes[i])))
}

/// Writes a marker. Reading it gives every write back, in order.
pub fn archive_marker(writes: &Vec<StagedWrite>) -> (r: String)
    ensures
        r@ == marker(staged_views(writes@)),
        marker_reading(r@) == (staged_views(writes@), None::<MarkerFault>),
{
    let mut rows: Vec<(String, String)> = Vec::new();
    let ghost all = staged_views(writes@);
    let mut i: usize = 0;
    while i < writes.len()
        invariant
            i <= writes@.len(),
            all == staged_views(writes@),
            pair_views(rows@) =~= all.take(i as int),
        decreases writes@.len() - i,
    {
        let ghost before = rows@;
        rows.push((writes[i].path.as_str().to_owned(), writes[i].temp_path.as_str().to_owned()));
        assert(pair_views(rows@) =~= pair_views(before).push(all[i as int]));
        i += 1;
    }
    proof {
        reveal_strlit("path");
        reveal_strlit("temp_path");
        assert(all.take(all.len() as int) =~= all);
    }
    let text = pair_records("path", "temp_path", &rows);
    proof {
        reveal_strlit("");
        reveal_strlit("/path");
        reveal_strlit("/temp_path");
        assert(""@ =~= Seq::empty());
        assert("/path"@ =~= seq!['/'] + "path"@);
        assert("/temp_path"@ =~= seq!['/'] + "temp_path"@);
        let items = items_of(text@);
        assert forall|k: int| 0 <= k < all.len() implies record_of(#[trigger] items[k]) == Ok::<
            (Seq<char>, Seq<char>),
            MarkerFault,
        >(all[k]) by {
            assert(pair_views(rows@)[k] == all[k]);
        }
        lemma_records_read(items, all);
        assert(Seq::new(
            rows@.len(),
            |k: int| pair_text("path"@, "temp_path"@, pair_views(rows@)[k]),
        ) =~= Seq::new(all.len(), |k: int| pair_text("path"@, "temp_path"@, all[k])));
    }
    text
}

/// Items that are all records are read as those records.
proof fn lemma_records_read(items: Seq<Seq<char>>, records: Seq<(Seq<char>, Seq<char>)>)
    requires
        items.len() == records.len(),
        forall|k: int|
            0 <= k < records.len() ==> record_of(#[trigger] items[k]) == Ok::<
                (Seq<char>, Seq<char>),
                MarkerFault,
            >(records[k]),
    ensures
        records_of(items) == (records, None::<MarkerFault>),
    decreases items.len(),
{
    if items.len() > 0 {
        lemma_records_read(items.drop_last(), records.drop_last());
        assert(record_of(items[items.len() - 1]) == Ok::<(Seq<char>, Seq<char>), MarkerFault>(
            records.last(),
        ));
        assert(records.drop_last().push(records.last()) =~= records);
    } else {
        assert(records =~= Seq::empty());
    }
}

/// What is wrong with a marker.
#[derive(Clone, Copy, PartialEq, Eq, Structural, Debug)]
pub enum MarkerFault {
    NotJson,
    NotAnArray,
    MissingPath,
    MissingTempPath,
}

pub open spec fn record_of(item: Seq<char>) -> Result<(Seq<char>, Seq<char>), MarkerFault> {
    match string_at(item, "/path"@) {
        None => Err(MarkerFault::MissingPath),
        Some(path) => match string_at(item, "/temp_path"@) {
            None => Err(MarkerFault::MissingTempPath),
            Some(temp) => Ok((path, temp)),
        },
    }
}

/// The records before the first faulty one, and its fault.
pub open spec fn records_of(items: Seq<Seq<char>>) -> (
    Seq<(Seq<char>, Seq<char>)>,
    Option<MarkerFault>,
)
    decreases items.len(),
{
    if items.len() == 0 {
        (Seq::empty(), None)
    } else {
        let (records, fault) = records_of(items.drop_last());
        match fault {
            Some(fault) => (records, Some(fault)),
            None => match record_of(items.last()) {
                Ok(record) => (records.push(record), None),
                Err(fault) => (records, Some(fault)),
            },
        }
    }
}

/// What a marker says is still to be moved into place.
pub open spec fn marker_reading(text: Seq<char>) -> (
    Seq<(Seq<char>, Seq<char>)>,
    Option<MarkerFault>,
) {
    if json_pick(text, ""@) is None {
        (Seq::empty(), Some(MarkerFault::NotJson))
    } else if json_items(text) is None {
        (Seq::empty(), Some(MarkerFault::NotAnArray))
    } else {
        records_of(items_of(text))
    }
}

/// Reads a marker: the moves to make, in order, and then the fault that stops
/// them, if there is one.
pub fn read_marker(text: &str) -> (r: (Vec<StagedWrite>, Option<MarkerFault>))
    ensures
        (staged_views(r.0@), r.1) == marker_reading(text@),
{
    let mut records: Vec<StagedWrite> = Vec::new();
    assert(staged_views(records@) =~= Seq::empty());
    if pick(text, "").is_none() {
        return (records, Some(MarkerFault::NotJson));
    }
    if item_count(text).is_none() {
        return (records, Some(MarkerFault::NotAnArray));
    }
    let items = array_items(text);
    let ghost all = items_of(text@);
    let mut i: usize = 0;
    assert(all.take(0) =~= Seq::empty());
    while i < items.len()
        invariant
            i <= items@.len(),
            all == string_views(items@),
            marker_reading(text@) == records_of(all),
            records_of(all.take(i as int)) == (staged_views(records@), None::<MarkerFault>),
        decreases items@.len() - i,
    {
        let item = items[i].as_str();
        let ghost now = all.take(i + 1);
        assert(now.drop_last() =~= all.take(i as int));
        assert(now.last() == item@);
        let path = match string_at_pointer(item, "/path") {
            Some(path) => path,
            None => {
                proof {
                    lemma_records_stop(all, i + 1);
                }
                return (records, Some(MarkerFault::MissingPath));
            },
        };
        let temp_path = match string_at_pointer(item, "/temp_path") {
            Some(temp_path) => temp_path,
            None => {
                proof {
                    lemma_records_stop(all, i + 1);
                }
                return (records, Some(MarkerFault::MissingTempPath));
            },
        };
        let ghost before = records@;
        records.push(StagedWrite { path, temp_path });
        assert(staged_views(records@) =~= staged_views(before).push((path@, temp_path@)));
        i += 1;
    }
    assert(all.take(all.len() as int) =~= all);
    (records, None)
}

proof fn lemma_records_stop(items: Seq<Seq<char>>, n: int)
    requires
        0 <= n <= items.len(),
        records_of(items.take(n)).1 is Some,
    ensures
        records_of(items) == records_of(items.take(n)),
    decreases items.len() - n,
{
    if n < items.len() {
        assert(items.take(n + 1).drop_last() =~= items.take(n));
        lemma_records_stop(items, n + 1);
    } else {
        assert(items.take(n) =~= items);
    }
}

/// A point of the page is in the box of a line when it lies in the thirteen
/// columns of the boxes and the thirteen rows of that line's; and on the text of a
/// line in the rows from eight above its top to thirteen below.
pub proof fn lemma_points_of_lines(x: int, y: int, line: int)
    ensures
        box_line(x, y) == Some(line) <==> 0 <= line < 6 && 10 <= x < 23 && 71 + 22 * line <= y < 84
            + 22 * line,
        text_line(y) == Some(line) <==> 0 <= line < 6 && 65 + 22 * line <= y < 86 + 22 * line,
{
}

/// The sections in order: urgent, frog, normal and snail, on pink, green, yellow
/// and blue pages, each in a file of its own name.
pub proof fn lemma_sections_are(section: int, other: int)
    requires
        0 <= section < 4,
        0 <= other < 4,
    ensures
        section == 0 ==> file_name(section) == "toodle_urgent.md"@ && page_color(section)
            == PageColor::Pink,
        section == 1 ==> file_name(section) == "toodle_frog.md"@ && page_color(section)
            == PageColor::Green,
        section == 2 ==> file_name(section) == "toodle_normal.md"@ && page_color(section)
            == PageColor::Yellow,
        section == 3 ==> file_name(section) == "toodle_snail.md"@ && page_color(section)
            == PageColor::Blue,
        section != other ==> tag(section) != tag(other),
{
    reveal_strlit("urgent");
    reveal_strlit("frog");
    reveal_strlit("normal");
    reveal_strlit("snail");
    reveal_strlit("toodle_");
    reveal_strlit(".md");
    reveal_strlit("toodle_urgent.md");
    reveal_strlit("toodle_frog.md");
    reveal_strlit("toodle_normal.md");
    reveal_strlit("toodle_snail.md");
    assert("toodle_"@ + "urgent"@ + ".md"@ =~= "toodle_urgent.md"@);
    assert("toodle_"@ + "frog"@ + ".md"@ =~= "toodle_frog.md"@);
    assert("toodle_"@ + "normal"@ + ".md"@ =~= "toodle_normal.md"@);
    assert("toodle_"@ + "snail"@ + ".md"@ =~= "toodle_snail.md"@);
    assert("urgent"@[0] == 'u' && "frog"@[0] == 'f' && "normal"@[0] == 'n' && "snail"@[0] == 's');
}

/// A number with zeros before it has at least the width asked for, nothing but
/// digits, and its value; a negative one has a minus sign first, which counts.
pub proof fn lemma_zero_padded_is(n: nat, width: nat)
    ensures
        ({
            let s = zero_padded(n as int, width);
            &&& s.len() == width || s.len() > width && s == decimal(n)
            &&& s.len() >= decimal(n).len()
            &&& s.skip(s.len() - decimal(n).len()) == decimal(n)
            &&& forall|i: int| 0 <= i < s.len() - decimal(n).len() ==> (#[trigger] s[i]) == '0'
        }),
        n > 0 && width > 0 ==> zero_padded(-(n as int), width) == seq!['-'] + zero_padded(
            n as int,
            (width - 1) as nat,
        ),
{
    let s = zero_padded(n as int, width);
    assert(s.skip(s.len() - decimal(n).len()) =~= decimal(n));
}

/// The file of what was done is named by year, month and day, and the section.
pub proof fn lemma_done_name_is(year: nat, month: nat, day: nat, tag: Seq<char>)
    requires
        1000 <= year < 10000,
        1 <= month < 100,
        1 <= day < 100,
    ensures
        ({
            let name = done_name(year as int, month as int, day as int, tag);
            &&& name.take(4) == decimal(year)
            &&& name[4] == '-' && name[7] == '-' && name[10] == '_'
            &&& name.subrange(5, 7) == (if month < 10 {
                seq!['0'] + decimal(month)
            } else {
                decimal(month)
            })
            &&& name.subrange(8, 10) == (if day < 10 {
                seq!['0'] + decimal(day)
            } else {
                decimal(day)
            })
            &&& name.skip(11) == tag + ".md"@
        }),
{
    reveal_with_fuel(decimal, 5);
    let name = done_name(year as int, month as int, day as int, tag);
    assert(decimal(year).len() == 4);
    assert(decimal(month).len() == if month < 10 { 1int } else { 2int });
    assert(decimal(day).len() == if day < 10 { 1int } else { 2int });
    let m = zero_padded(month as int, 2);
    let d = zero_padded(day as int, 2);
    assert(month < 10 ==> m =~= seq!['0'] + decimal(month));
    assert(day < 10 ==> d =~= seq!['0'] + decimal(day));
    assert(m.len() == 2 && d.len() == 2);
    assert(name.take(4) =~= decimal(year));
    assert(name.subrange(5, 7) =~= m);
    assert(name.subrange(8, 10) =~= d);
    assert(name.skip(11) =~= tag + ".md"@);
}

/// The colors that a page gives its drawing, by their places in the palette; all
/// other colors stay. The second line of a page is drawn in the color of the page's
/// rose.
pub proof fn lemma_page_colors_are(color: PageColor, i: Index)
    requires
        i <= 15,
    ensures
        page_index(PageColor::Pink, false, i) == (match i {
            6 => 9,
            14 => 10,
            _ => i,
        }),
        page_index(PageColor::Yellow, false, i) == (match i {
            0 => 12,
            4 => 5,
            6 => 9,
            9 => 3,
            10 => 8,
            14 => 10,
            _ => i,
        }),
        page_index(PageColor::Green, false, i) == (match i {
            4 => 6,
            6 => 1,
            8 => 7,
            9 => 14,
            10 => 7,
            14 => 3,
            _ => i,
        }),
        page_index(PageColor::Blue, false, i) == (match i {
            4 => 12,
            6 => 13,
            8 => 14,
            9 => 14,
            10 => 13,
            14 => 1,
            _ => i,
        }),
        i != 6 ==> page_index(color, true, i) == page_index(color, false, i),
        page_index(color, true, 6) == page_index(color, false, 10),
{
}

/// The pages of the sections follow each other in order, each section's from its
/// first. A place is the number of pages before its section, and the page in it.
pub proof fn lemma_pages_in_order(lists: Seq<Seq<ItemView>>, section: int, place: int)
    requires
        lists.len() > 0,
        0 <= section < lists.len(),
        0 <= place < page_total(lists),
    ensures
        pages_before(lists, 0) == 0,
        pages_before(lists, section + 1) == pages_before(lists, section) + pages_of(lists[section]),
        page_total(lists) == pages_before(lists, lists.len() as int),
        ({
            let (s, p) = page_from(lists, 0, place);
            &&& 0 <= s < lists.len()
            &&& 0 <= p < pages_of(lists[s])
            &&& place == pages_before(lists, s) + p
        }),
        forall|p: int|
            0 <= p < pages_of(lists[section]) ==> #[trigger] place_of(lists, section, p)
                == pages_before(lists, section) + p,
{
    lemma_page_from_is(lists, 0, place);
}

proof fn lemma_page_from_is(lists: Seq<Seq<ItemView>>, section: int, page: int)
    requires
        0 <= section < lists.len(),
        0 <= page,
        pages_before(lists, section) + page < page_total(lists),
    ensures
        ({
            let (s, p) = page_from(lists, section, page);
            &&& section <= s < lists.len()
            &&& 0 <= p < pages_of(lists[s])
            &&& pages_before(lists, section) + page == pages_before(lists, s) + p
        }),
    decreases lists.len() - section,
{
    assert(pages_before(lists, section + 1) == pages_before(lists, section) + pages_of(
        lists[section],
    ));
    crate::todo::lemma_pages_hold_items(lists[section]);
    if section < lists.len() - 1 && page >= pages_of(lists[section]) {
        lemma_page_from_is(lists, section + 1, page - pages_of(lists[section]));
    }
}

/// The text and the check mark at a place of a list; behind its end there is
/// neither.
pub open spec fn noted_at(list: Seq<ItemView>, i: int) -> (Seq<char>, bool) {
    if 0 <= i < list.len() {
        (list[i].text, list[i].checked)
    } else {
        (Seq::empty(), false)
    }
}

proof fn lemma_trimmed_keeps_notes(list: Seq<ItemView>)
    ensures
        forall|i: int| #[trigger] noted_at(trimmed(list), i) == noted_at(list, i),
{
    crate::todo::lemma_trimmed_is(list);
    let short = trimmed(list);
    assert forall|i: int| #[trigger] noted_at(short, i) == noted_at(list, i) by {
        if 0 <= i < short.len() {
            assert(short[i] == list[i]);
        } else if short.len() <= i < list.len() {
            assert(list[i].text =~= Seq::empty());
        }
    }
}

/// A click on the eraser, at its place left of the page, asks for the archive and
/// leaves the notes, the page and the focus alone.
pub proof fn lemma_eraser_click(v: NotebookView, x: int, y: int, random: int)
    requires
        0 <= x < v.art.eraser.w,
        21 <= y < 21 + v.art.eraser.h,
    ensures
        ({
            let (after, what) = v.clicked(x, y, random);
            &&& what == ToodleClick::Archive
            &&& after.lists == v.lists
            &&& after.page == v.page
            &&& after.focus == v.focus
            &&& after.highlight == v.highlight
        }),
{
}

/// A click on the dice, eight columns right of the page and level with its bottom,
/// rolls them. A click left of the page only ends the editing; one on the curl at
/// the page's corner does that too and turns to the next page, from the last one to
/// the first. None of them changes a note.
pub proof fn lemma_other_clicks(v: NotebookView, x: int, y: int, random: int)
    requires
        0 <= x,
        0 <= y,
        !(x < v.art.eraser.w && 21 <= y < 21 + v.art.eraser.h),
    ensures
        ({
            let (after, what) = v.clicked(x, y, random);
            let dice = 22 + v.art.page.w <= x < 22 + v.art.page.w + v.art.dice.w && v.art.page.h
                - v.art.dice.h <= y < v.art.page.h;
            &&& dice ==> what == ToodleClick::Nothing && after.lists == v.lists && after.page
                == v.page && after.focus is None && after.highlight == v.rolled(random)
            &&& !dice && x < 14 ==> what == ToodleClick::Nothing && after.lists == v.lists
                && after.page == v.page && after.focus is None && after.highlight == v.highlight
            &&& !dice && x >= 154 && y >= 168 ==> what == ToodleClick::Nothing && after.lists
                == v.lists && after.focus is None && after.highlight == v.highlight && after.page
                == (v.page + 1) % page_total(v.lists)
        }),
{
}

/// A click on the box of a line that has one turns its check mark, and changes no
/// other note. It is told with the section, and spins when something urgent or
/// unpleasant is checked off. A check mark takes the highlight off the line.
pub proof fn lemma_box_click(v: NotebookView, x: int, y: int, random: int, line: int)
    requires
        v.lists.len() > 0,
        0 <= v.page < page_total(v.lists),
        0 <= line < 6,
        24 <= x < 37,
        71 + 22 * line <= y < 84 + 22 * line,
        !(x < v.art.eraser.w && 21 <= y < 21 + v.art.eraser.h),
        !(22 + v.art.page.w <= x < 22 + v.art.page.w + v.art.dice.w && v.art.page.h - v.art.dice.h
            <= y < v.art.page.h),
        v.top_item(line).is_checkbox,
    ensures
        ({
            let (after, what) = v.clicked(x, y, random);
            let (section, page) = v.top();
            let i = 6 * page + line;
            let was = noted_at(v.lists[section], i);
            &&& what == (ToodleClick::Checked {
                section: section as usize,
                spin: !was.1 && (section == 0 || section == 1),
            })
            &&& after.lists.len() == v.lists.len()
            &&& noted_at(after.lists[section], i) == (was.0, !was.1)
            &&& forall|j: int|
                j != i ==> #[trigger] noted_at(after.lists[section], j) == noted_at(
                    v.lists[section],
                    j,
                )
            &&& forall|s: int|
                0 <= s < v.lists.len() && s != section ==> #[trigger] after.lists[s] == v.lists[s]
            &&& after.focus == v.focus
            &&& after.highlight == (if !was.1 && v.highlight == Some((section, page, line)) {
                None
            } else {
                v.highlight
            })
        }),
{
    lemma_points_of_lines(x - 14, y, line);
    lemma_page_from_is(v.lists, 0, v.page);
    let (section, page) = v.top();
    let list = v.lists[section];
    let i = 6 * page + line;
    assert(page * LINE_COUNT + line == i);
    let item = toggled(v.top_item(line));
    let full = padded(list, i + 1).update(i, item);
    lemma_trimmed_keeps_notes(full);
    assert forall|j: int| j != i implies noted_at(full, j) == noted_at(list, j) by {}
    let after = v.clicked(x, y, random).0;
    assert(after.lists[section] == trimmed(full));
    assert(v.clicked(x, y, random).0.lists =~= v.lists.update(section, trimmed(full)));
}

/// A click on the text of a line sets the focus there and shows that line's text
/// in the field, with nothing to undo.
pub proof fn lemma_text_click(v: NotebookView, x: int, y: int, random: int, line: int)
    requires
        0 <= line < 6,
        x >= 37,
        65 + 22 * line <= y < 86 + 22 * line,
        y < 168 || x < 154,
        !(x < v.art.eraser.w && 21 <= y < 21 + v.art.eraser.h),
        !(22 + v.art.page.w <= x < 22 + v.art.page.w + v.art.dice.w && v.art.page.h - v.art.dice.h
            <= y < v.art.page.h),
    ensures
        ({
            let (after, what) = v.clicked(x, y, random);
            &&& what == ToodleClick::Focused(line as usize)
            &&& after.focus == Some(line)
            &&& after.lists == v.lists
            &&& after.page == v.page
            &&& after.field.text == v.top_item(line).text
            &&& after.field.edit.undo.len() == 0
            &&& after.field.edit.anchor is None
        }),
{
    lemma_points_of_lines(x - 14, y, line);
    assert(box_line(x - 14, y) is None) by {
        if box_line(x - 14, y) is Some {
            lemma_points_of_lines(x - 14, y, box_line(x - 14, y)->0);
        }
    }
}

/// The dice fall on a line of the page in front that has a box, no check mark and
/// a text, and each such line can come up. Without one they fall on none.
pub proof fn lemma_dice_roll(v: NotebookView, random: int, line: int)
    requires
        random >= 0,
    ensures
        ({
            let (section, page) = v.top();
            let list = v.lists[section];
            &&& v.rolled(random) matches Some((s, p, l)) ==> s == section && p == page && 0 <= l < 6
                && item_at(list, page, l).is_checkbox && !item_at(list, page, l).checked && trim(
                item_at(list, page, l).text,
            ).len() > 0
            &&& 0 <= line < 6 && item_at(list, page, line).is_checkbox && !item_at(
                list,
                page,
                line,
            ).checked && trim(item_at(list, page, line).text).len() > 0 ==> v.rolled(random) is Some
                && exists|r: int|
                0 <= r < 6 && #[trigger] v.rolled(r) == Some((section, page, line))
        }),
{
    let (section, page) = v.top();
    let list = v.lists[section];
    let lines = candidates(list, page, 6);
    lemma_candidates_are(list, page, 6);
    if lines.len() > 0 {
        let n = lines.len() as int;
        vstd::arithmetic::div_mod::lemma_mod_bound(random, n);
        assert(rollable(item_at(list, page, lines[random % n])));
    }
    if 0 <= line < 6 && rollable(item_at(list, page, line)) {
        assert(lines.contains(line));
        let r = choose|r: int| 0 <= r < lines.len() && lines[r] == line;
        vstd::arithmetic::div_mod::lemma_small_mod(r as nat, lines.len());
        assert(v.rolled(r) == Some((section, page, line)));
    }
}

proof fn lemma_candidates_are(items: Seq<ItemView>, page: int, lines: int)
    requires
        0 <= lines,
    ensures
        candidates(items, page, lines).len() <= lines,
        forall|i: int|
            0 <= i < candidates(items, page, lines).len() ==> 0 <= #[trigger] candidates(
                items,
                page,
                lines,
            )[i] < lines && rollable(item_at(items, page, candidates(items, page, lines)[i])),
        forall|l: int|
            0 <= l < lines && rollable(item_at(items, page, l)) ==> #[trigger] candidates(
                items,
                page,
                lines,
            ).contains(l),
    decreases lines,
{
    if lines > 0 {
        lemma_candidates_are(items, page, lines - 1);
        let before = candidates(items, page, lines - 1);
        let after = candidates(items, page, lines);
        assert forall|l: int|
            0 <= l < lines && rollable(item_at(items, page, l)) implies #[trigger] after.contains(
            l,
        ) by {
            if l == lines - 1 {
                assert(after[after.len() - 1] == l);
            } else {
                assert(before.contains(l));
                let i = choose|i: int| 0 <= i < before.len() && before[i] == l;
                assert(after[i] == l);
            }
        }
    }
}

/// Enter goes on to the next line, from the last one to itself, with the cursor
/// behind its text; Escape ends the editing. Neither changes a note.
pub proof fn lemma_enter_and_escape(
    v: NotebookView,
    key: KeyView,
    clipboard: Option<Seq<char>>,
    font: &BitmapFont,
    after: NotebookView,
    copy: Option<Seq<char>>,
    save: Option<int>,
    line: int,
)
    requires
        v.key_leads_to(key, clipboard, font, after, copy, save),
        v.focus == Some(line),
        0 <= line < 6,
        key.sym == 0xff0d || key.sym == 0xff8d || key.sym == 0xff1b,
    ensures
        after.lists == v.lists,
        after.page == v.page,
        copy is None,
        save is None,
        key.sym == 0xff1b ==> after.focus is None,
        key.sym != 0xff1b ==> {
            &&& after.focus == Some(
                if line < 5 {
                    line + 1
                } else {
                    5
                },
            )
            &&& after.field.text == v.top_item(after.focus->0).text
            &&& after.field.edit.cursor == after.field.text.len()
            &&& after.field.edit.anchor is None
        },
{
}

/// Backspace in an empty line takes the line out, and those below it move up;
/// the cursor goes to the front of what stands there then. The section is saved.
pub proof fn lemma_line_removed(
    v: NotebookView,
    key: KeyView,
    clipboard: Option<Seq<char>>,
    font: &BitmapFont,
    after: NotebookView,
    copy: Option<Seq<char>>,
    save: Option<int>,
    line: int,
)
    requires
        v.key_leads_to(key, clipboard, font, after, copy, save),
        v.lists.len() > 0,
        0 <= v.page < page_total(v.lists),
        v.focus == Some(line),
        0 <= line < 6,
        key.sym == 0xff08,
        v.field.text.len() == 0,
    ensures
        ({
            let (section, page) = v.top();
            let list = v.lists[section];
            let i = 6 * page + line;
            &&& after.lists.len() == v.lists.len()
            &&& forall|s: int|
                0 <= s < v.lists.len() && s != section ==> #[trigger] after.lists[s] == v.lists[s]
            &&& i >= list.len() ==> after.lists[section] == list && save is None
            &&& i < list.len() ==> save == Some(section) && forall|j: int|
                0 <= j ==> #[trigger] noted_at(after.lists[section], j) == noted_at(
                    list,
                    if j < i {
                        j
                    } else {
                        j + 1
                    },
                )
            &&& after.field.edit.cursor == 0
            &&& after.focus == v.focus
        }),
{
    lemma_page_from_is(v.lists, 0, v.page);
    let (section, page) = v.top();
    let list = v.lists[section];
    let i = 6 * page + line;
    assert(page * LINE_COUNT + line == i);
    if i < list.len() {
        let shorter = list.remove(i);
        lemma_trimmed_keeps_notes(shorter);
        assert(after.lists =~= v.lists.update(section, trimmed(shorter)));
        assert forall|j: int| 0 <= j implies noted_at(shorter, j) == noted_at(
            list,
            if j < i {
                j
            } else {
                j + 1
            },
        ) by {
            if j < shorter.len() {
                assert(shorter[j] == list[if j < i { j } else { j + 1 }]);
            }
        }
    } else {
        assert(after.lists =~= v.lists);
    }
}

/// What a key changes in the field is written into the line with the focus, and
/// nowhere else; its section is then to be saved. Without a focus a key does
/// nothing.
pub proof fn lemma_typed_into_line(
    v: NotebookView,
    key: KeyView,
    clipboard: Option<Seq<char>>,
    font: &BitmapFont,
    after: NotebookView,
    copy: Option<Seq<char>>,
    save: Option<int>,
)
    requires
        v.key_leads_to(key, clipboard, font, after, copy, save),
        v.lists.len() > 0,
        v.dirty.len() == v.lists.len(),
        0 <= v.page < page_total(v.lists),
    ensures
        v.focus is None ==> after == v && copy is None && save is None,
        v.focus matches Some(line) ==> 0 <= line < 6 && !(key.sym == 0xff08 && v.field.text.len()
            == 0) ==> {
            let (section, page) = v.top();
            let i = 6 * page + line;
            &&& save is None
            &&& after.lists.len() == v.lists.len()
            &&& forall|s: int|
                0 <= s < v.lists.len() && s != section ==> #[trigger] after.lists[s] == v.lists[s]
            &&& forall|j: int|
                j != i ==> #[trigger] noted_at(after.lists[section], j) == noted_at(
                    v.lists[section],
                    j,
                )
            &&& after.lists[section] != v.lists[section] ==> after.dirty[section]
                && after.lists[section][i].text == after.field.text
                && after.lists[section][i].checked == noted_at(v.lists[section], i).1
            &&& forall|s: int|
                0 <= s < v.lists.len() && s != section ==> #[trigger] after.dirty[s] == v.dirty[s]
        },
{
    lemma_page_from_is(v.lists, 0, v.page);
    if let Some(line) = v.focus {
        if 0 <= line < 6 && !(key.sym == 0xff08 && v.field.text.len() == 0) {
            let (section, page) = v.top();
            let list = v.lists[section];
            let i = 6 * page + line;
            assert(page * LINE_COUNT + line == i);
            let (field, outcome) = choose|field: FieldView, outcome: OutcomeView|
                {
                    &&& #[trigger] field_key(v.field, line, key, clipboard, font, field, outcome)
                    &&& save is None
                    &&& (outcome matches OutcomeView::Handled { changed, copy: copied } ==> copy
                        == copied && after == if changed {
                        let typed = v.with_list(
                            section,
                            page,
                            padded(list, i + 1).update(
                                i,
                                ItemView { text: field.text, ..v.top_item(line) },
                            ),
                        );
                        NotebookView { field, dirty: v.dirty.update(section, true), ..typed }
                    } else {
                        NotebookView { field, ..v }
                    })
                    &&& (outcome is Unhandled ==> after.lists == v.lists && after.dirty == v.dirty)
                };
            if after.lists != v.lists {
                let full = padded(list, i + 1).update(
                    i,
                    ItemView { text: field.text, ..v.top_item(line) },
                );
                assert(after.lists == v.lists.update(section, full));
                assert forall|j: int| j != i implies #[trigger] noted_at(
                    after.lists[section],
                    j,
                ) == noted_at(list, j) by {
                    assert(after.lists[section] == full);
                }
            }
        }
    }
}

/// A page of the stack shows its own depth: four columns right and four rows down
/// for each page before it, the picture of the depth up to the third, and the
/// section of the page that far behind the front one.
pub proof fn lemma_card_is(v: NotebookView, depth: int)
    requires
        0 <= depth < 16,
        v.lists.len() == 4,
        0 <= v.page,
    ensures
        card(v, depth).x == 14 + 4 * depth,
        card(v, depth).y == 4 * depth,
        depth <= 3 ==> card(v, depth).image == depth,
        depth > 3 ==> card(v, depth).image == 3,
        v.page + depth < page_total(v.lists) ==> card(v, depth).section == page_from(
            v.lists,
            0,
            v.page + depth,
        ).0,
{
    if v.page + depth < page_total(v.lists) {
        vstd::arithmetic::div_mod::lemma_small_mod(
            (v.page + depth) as nat,
            page_total(v.lists) as nat,
        );
        lemma_page_from_is(v.lists, 0, v.page + depth);
    }
}

/// One more section adds one file of what was done, in the archive's directory
/// and of that day, when something of it was done; and its own list, under its own
/// name, when it changed.
pub proof fn lemma_writes_are(
    root: Seq<char>,
    tm: Tm,
    archived: Seq<Seq<Seq<char>>>,
    existing: Seq<Seq<char>>,
    lists: Seq<Seq<ItemView>>,
    changed: Seq<bool>,
    n: int,
)
    requires
        0 <= n < 4,
    ensures
        done_writes(root, tm, archived, existing, 0).len() == 0,
        list_writes(root, lists, changed, 0).len() == 0,
        archived[n].len() == 0 ==> done_writes(root, tm, archived, existing, n + 1) == done_writes(
            root,
            tm,
            archived,
            existing,
            n,
        ),
        archived[n].len() > 0 ==> done_writes(root, tm, archived, existing, n + 1) == done_writes(
            root,
            tm,
            archived,
            existing,
            n,
        ).push(
            (
                root + "/toodle_done/"@ + done_name(
                    tm.tm_year + 1900,
                    tm.tm_mon + 1,
                    tm.tm_mday as int,
                    tag(n),
                ),
                done_file_text(existing[n], archived[n]),
            ),
        ),
        !changed[n] ==> list_writes(root, lists, changed, n + 1) == list_writes(
            root,
            lists,
            changed,
            n,
        ),
        changed[n] ==> list_writes(root, lists, changed, n + 1) == list_writes(
            root,
            lists,
            changed,
            n,
        ).push((root + seq!['/'] + file_name(n), list_text(lists[n]))),
{
    reveal_strlit("toodle_done");
    reveal_strlit("/toodle_done/");
    let name = done_name(tm.tm_year + 1900, tm.tm_mon + 1, tm.tm_mday as int, tag(n));
    assert(under(under(root, DONE_DIR_NAME@), name) =~= root + "/toodle_done/"@ + name);
}

/// A note on the writes that are under way reads back as it was written, as far as
/// each record names both paths; the reading stops at the first that does not.
pub proof fn lemma_records_are(items: Seq<Seq<char>>)
    ensures
        ({
            let (records, fault) = records_of(items);
            &&& records.len() <= items.len()
            &&& forall|i: int|
                0 <= i < records.len() ==> string_at(items[i], "/path"@) == Some(
                    (#[trigger] records[i]).0,
                ) && string_at(items[i], "/temp_path"@) == Some(records[i].1)
            &&& fault is None <==> records.len() == items.len()
            &&& fault is Some ==> ({
                let bad = items[records.len() as int];
                &&& string_at(bad, "/path"@) is None ==> fault == Some(MarkerFault::MissingPath)
                &&& string_at(bad, "/path"@) is Some ==> string_at(bad, "/temp_path"@) is None
                    && fault == Some(MarkerFault::MissingTempPath)
            })
        }),
    decreases items.len(),
{
    if items.len() > 0 {
        lemma_records_are(items.drop_last());
        let (before, fault) = records_of(items.drop_last());
        let (records, _f) = records_of(items);
        assert forall|i: int| 0 <= i < before.len() implies items[i] == items.drop_last()[i] by {}
        if fault is Some {
            assert(items[before.len() as int] == items.drop_last()[before.len() as int]);
        }
    }
}

/// The note on the writes under way holds one object for each, in order, with both
/// paths.
pub proof fn lemma_marker_is(writes: Seq<(Seq<char>, Seq<char>)>, last: (Seq<char>, Seq<char>))
    ensures
        marker(Seq::empty()) == seq!['[', ']'],
        marker(writes.push(last)) == marker(writes).drop_last() + (if writes.len() > 0 {
            seq![',']
        } else {
            Seq::empty()
        }) + pair_text("path"@, "temp_path"@, last) + seq![']'],
{
    let texts = Seq::new(writes.len(), |i: int| pair_text("path"@, "temp_path"@, writes[i]));
    let one = pair_text("path"@, "temp_path"@, last);
    assert(Seq::new(
        writes.push(last).len(),
        |i: int| pair_text("path"@, "temp_path"@, writes.push(last)[i]),
    ) =~= texts + seq![one]);
    assert(Seq::new(
        Seq::<(Seq<char>, Seq<char>)>::empty().len(),
        |i: int|
            pair_text("path"@, "temp_path"@, Seq::<(Seq<char>, Seq<char>)>::empty()[i]),
    ) =~= Seq::<Seq<char>>::empty());
    crate::chars::lemma_join_is(texts, seq![one], seq![',']);
    crate::chars::lemma_join_is(seq![one], texts, seq![',']);
    crate::chars::lemma_join_is(Seq::empty(), texts, seq![',']);
    assert(Seq::<Seq<char>>::empty() + seq![one] =~= seq![one]);
    assert(writes.len() == 0 ==> texts =~= Seq::<Seq<char>>::empty());
    assert(marker(Seq::empty()) =~= seq!['[', ']']);
    assert(marker(writes.push(last)) =~= marker(writes).drop_last() + (if writes.len() > 0 {
        seq![',']
    } else {
        Seq::empty()
    }) + one + seq![']']);
}

/// An archive takes the checked items out of every list and keeps the open ones;
/// what it writes down as done is what was checked.
pub proof fn lemma_archive_is(plan: &ArchivePlan, lists: Seq<Seq<ItemView>>, section: int)
    requires
        plan.for_lists(lists),
        0 <= section < lists.len(),
    ensures
        ({
            let after = plan.lists@[section]@;
            let open = lists[section].filter(|x: ItemView| !x.checked);
            let done = lists[section].filter(
                |x: ItemView| x.checked && trim(x.text).len() > 0,
            );
            &&& plan.changed@[section] <==> exists|i: int|
                0 <= i < lists[section].len() && (#[trigger] lists[section][i]).checked
            &&& !plan.changed@[section] ==> after == lists[section]
            &&& plan.changed@[section] ==> after.len() <= open.len() && after == open.take(
                after.len() as int,
            )
            &&& plan.archived@[section]@.len() == done.len()
            &&& forall|i: int|
                #![trigger plan.archived@[section]@[i]]
                0 <= i < done.len() ==> plan.archived@[section]@[i]@ == done[i].text
        }),
{
    crate::todo::lemma_sweep_keeps_open_items(lists[section]);
    crate::todo::lemma_done_texts_are(lists[section]);
    assert(list_views(plan.lists@).len() == lists.len());
    assert(text_lists(plan.archived@).len() == lists.len());
    assert(list_views(plan.lists@)[section] == plan.lists@[section]@);
    assert(text_lists(plan.archived@)[section] == string_views(plan.archived@[section]@));
    let texts = string_views(plan.archived@[section]@);
    let done = lists[section].filter(|x: ItemView| x.checked && trim(x.text).len() > 0);
    assert(texts == done_texts(lists[section]));
    assert forall|i: int|
        #![trigger plan.archived@[section]@[i]]
        0 <= i < done.len() implies plan.archived@[section]@[i]@ == done[i].text by {
        assert(texts[i] == plan.archived@[section]@[i]@);
    }
}

/// Saving writes the lines of the section, without its blank end, and keeps every
/// note; a section that did not change is not written.
pub proof fn lemma_saves_lead(
    notebook: &Toodle,
    section: usize,
    after: &Toodle,
    front: (usize, String),
    r: Option<String>,
)
    requires
        notebook@.lists.len() == 4,
        section < 4,
    ensures
        notebook.section_saved(after, front) && 0 <= notebook@.top().0 < 4 ==> {
            let list = notebook@.lists[notebook@.top().0];
            &&& front.0 == notebook@.top().0
            &&& front.1@ == list_text(trimmed(list))
            &&& after@.lists.len() == 4
            &&& forall|i: int| #[trigger]
                noted_at(after@.lists[front.0 as int], i) == noted_at(list, i)
            &&& forall|s: int|
                0 <= s < 4 && s != front.0 ==> #[trigger] after@.lists[s] == notebook@.lists[s]
        },
        notebook.dirty_saved(section, after, r) ==> {
            let list = notebook@.lists[section as int];
            &&& r is Some <==> notebook@.dirty[section as int]
            &&& r matches Some(text) ==> text@ == list_text(trimmed(list))
            &&& r is None ==> after@ == notebook@
            &&& after@.lists.len() == 4
            &&& forall|i: int| #[trigger]
                noted_at(after@.lists[section as int], i) == noted_at(list, i)
            &&& after@.page == notebook@.page
        },
        notebook.saved_leads_to(section, after) && notebook@.dirty.len() == 4 ==> after@.lists
            == notebook@.lists && !after@.dirty[section as int] && forall|s: int|
            0 <= s < 4 && s != section ==> #[trigger] after@.dirty[s] == notebook@.dirty[s],
{
    lemma_trimmed_keeps_notes(notebook@.lists[section as int]);
    if 0 <= notebook@.top().0 < 4 {
        lemma_trimmed_keeps_notes(notebook@.lists[notebook@.top().0]);
    }
}

/// An archive ends with every list swept, today's counts as they are then, and
/// nothing edited.
pub proof fn lemma_archives_end(
    notebook: &Toodle,
    plan: ArchivePlan,
    today_done_counts: Vec<usize>,
    after: &Toodle,
    section: int,
)
    requires
        notebook.archive_ends(plan, today_done_counts, after),
        0 <= section < notebook@.lists.len(),
    ensures
        after@.lists.len() == notebook@.lists.len(),
        after@.counts == today_done_counts@,
        after@.focus is None,
        after@.highlight == notebook@.highlight,
        forall|x: ItemView|
            !x.checked && x.text.len() > 0 && #[trigger] notebook@.lists[section].contains(x)
                ==> after@.lists[section].contains(x),
        forall|i: int|
            0 <= i < after@.lists[section].len() ==> !(#[trigger] after@.lists[section][i]).checked,
{
    let list = notebook@.lists[section];
    crate::todo::lemma_sweep_keeps_open_items(list);
    crate::todo::lemma_sweep(list);
    assert(after@.lists[section] == TodoList::swept(list));
}

/// The eraser is lit while the pointer is over it, and selecting in a line goes as it
/// does in any text, while the line is edited.
pub proof fn lemma_pointer_on_notebook(
    notebook: &Toodle,
    x: i16,
    y: i16,
    index: usize,
    after: &Toodle,
    r: bool,
)
    ensures
        notebook.hover_leads_to(x, y, after, r) ==> (after.eraser_hovered <==> 0 <= x
            < notebook.art.eraser.w && 21 <= y < 21 + notebook.art.eraser.h) && (r
            <==> after.eraser_hovered != notebook.eraser_hovered) && after.todos == notebook.todos
            && after.page == notebook.page,
        notebook.drag_goes_on(index, after, r) ==> {
            &&& after@.lists == notebook@.lists
            &&& after@.field.text == notebook@.field.text
            &&& notebook@.focus is None || notebook@.field.edit.drag is None ==> !r && after@.field
                == notebook@.field
            &&& notebook@.focus is Some && index <= notebook@.field.text.len() ==> (
            notebook@.field.edit.drag matches Some(start) ==> after@.field.edit.cursor == index && (
            start == index ==> after@.field.edit.anchor is None) && (start != index
                ==> after@.field.edit.anchor == Some(start)))
        },
{
}

/// A line's text may be a hundred and thirty-two columns wide, and on the last line a
/// hundred and eight. The stack is four columns and rows larger for each page behind
/// the first.
pub proof fn lemma_widths_are(notebook: &Toodle, line: int)
    ensures
        line == 5 ==> text_width(line) == 108,
        line != 5 ==> text_width(line) == 132,
        notebook.stack() == 4 * (page_total(notebook@.lists) - 1),
{
}

/// A note on writes that is no document, or none that is a list, is refused as such;
/// of a list the records are read.
pub proof fn lemma_notes_are_read(text: Seq<char>)
    ensures
        json_pick(text, ""@) is None ==> marker_reading(text).1 == Some(MarkerFault::NotJson)
            && marker_reading(text).0.len() == 0,
        json_pick(text, ""@) is Some && json_items(text) is None ==> marker_reading(text).1 == Some(
            MarkerFault::NotAnArray,
        ) && marker_reading(text).0.len() == 0,
        json_pick(text, ""@) is Some && json_items(text) is Some ==> marker_reading(text)
            == records_of(items_of(text)),
{
}

/// The pencil's shadow falls beside any text but on the last two lines: there the text
/// may have seventeen and fourteen characters.
pub proof fn lemma_shadow_falls(notebook: &Toodle, line: usize, r: bool)
    requires
        notebook.shadow_falls(line, r),
    ensures
        line < 4 ==> r,
        line == 4 ==> (r <==> notebook@.top_item(4).text.len() <= 17),
        line == 5 ==> (r <==> notebook@.top_item(5).text.len() <= 14),
{
}

/// Selecting in a line begins at the character that is pressed, or at the text's end,
/// with nothing selected; the lists stay as they are.
pub proof fn lemma_line_drag_begins(before: &Toodle, index: usize, after: &Toodle)
    requires
        before.drag_begins(index, after),
    ensures
        after@.lists == before@.lists,
        after@.focus == before@.focus,
        after@.page == before@.page,
        after@.dirty == before@.dirty,
        after@.field.text == before@.field.text,
        after@.field.edit.anchor is None,
        after@.field.edit.drag == Some(after@.field.edit.cursor),
        index <= before@.field.text.len() ==> after@.field.edit.cursor == index,
        index > before@.field.text.len() ==> after@.field.edit.cursor == before@.field.text.len(),
{
}

/// A notebook starts with its lists as they are, at its first page, with no line
/// focused or rolled and nothing to be written.
pub proof fn lemma_notebook_starts(
    todos: Vec<TodoList>,
    counts: Vec<usize>,
    art: NotebookArt,
    r: Toodle,
    i: int,
)
    requires
        Toodle::starts(todos, counts, art, r),
        0 <= i < 4,
        todos@.len() == 4,
    ensures
        r@.lists[i] == todos@[i]@,
        r@.counts == counts@,
        r@.page == 0,
        r@.focus is None && r@.highlight is None && !r@.hovered,
        r@.dirty.len() == 4 && !r@.dirty[i],
        r@.field.text.len() == 0 && r@.field.edit.cursor == 0 && r@.field.edit.anchor is None,
        r@.field.max_lines == 2,
        r@.art == art,
{
}

} // verus!
