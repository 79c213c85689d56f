//! The date card: today's date, or a month's calendar with week numbers.
use vstd::prelude::*;

use crate::chars::{
    append_chars, decimal, decimal_chars, decimal_int, decimal_int_chars, from_chars, same_text,
    to_chars,
};
use crate::graphics::{span, Index};
use crate::localtime::{
    datable, days_from_civil, days_in_month, epoch_day, iso_week, iso_week_number, lemma_datable,
    month_length, weekday, Tm,
};
use crate::palette_color::{BLACK, CREAM, CRIMSON, PURPLE, ROSE};
use crate::scene::{shape_views, Shape, ShapeView};
use crate::text::font::{ink_box, inked, BitmapFont, TextInkBounds};

verus! {

/// The width of the card's own art.
pub const BASE_WIDTH: usize = 116;

pub const CALENDAR_COL_W: usize = 13;

/// The column that holds the week numbers.
pub const WEEK_COL_W: usize = CALENDAR_COL_W + 10;

/// The width of the card with that column.
pub const WIDTH: usize = BASE_WIDTH + WEEK_COL_W;

pub const HEIGHT: usize = 116;

pub const SHADOW_X_OFFSET: usize = 1;

pub const SHADOW_Y_OFFSET: usize = 4;

/// Seconds between looks at the clock.
pub const REFRESH_SECS: u64 = 60;

pub const TOP_GAP: usize = 10;

pub const LABEL_GAP: usize = 26;

pub const NUMBER_GAP: usize = 6;

pub const MONTH_GAP: usize = 6;

pub const CALENDAR_TITLE_Y: isize = 11;

pub const CALENDAR_WEEKDAY_Y: isize = 34;

pub const CALENDAR_GRID_Y: isize = 47;

pub const WEEK_NUM_LEFT: usize = 12;

pub const CALENDAR_LEFT: usize = WEEK_NUM_LEFT + WEEK_COL_W;

/// No month takes more rows of weeks.
pub const MAX_CALENDAR_ROWS: usize = 6;

pub const TODAY_CIRCLE_RADIUS: isize = 6;

/// The fonts' places.
pub const LABEL_FONT: usize = 0;

pub const NUMBER_FONT: usize = 1;

pub const CALENDAR_FONT: usize = 2;

pub open spec fn weekday_label(i: int) -> Seq<char> {
    if i == 0 {
        "SUNDAY"@
    } else if i == 1 {
        "MONDAY"@
    } else if i == 2 {
        "TUESDAY"@
    } else if i == 3 {
        "WEDNESDAY"@
    } else if i == 4 {
        "THURSDAY"@
    } else if i == 5 {
        "FRIDAY"@
    } else {
        "SATURDAY"@
    }
}

pub fn weekday_name(i: usize) -> (r: &'static str)
    ensures
        r@ == weekday_label(i as int),
{
    match i {
        0 => "SUNDAY",
        1 => "MONDAY",
        2 => "TUESDAY",
        3 => "WEDNESDAY",
        4 => "THURSDAY",
        5 => "FRIDAY",
        _ => "SATURDAY",
    }
}

pub open spec fn month_label(i: int) -> Seq<char> {
    if i == 1 {
        "FEBRUARY"@
    } else if i == 2 {
        "MARCH"@
    } else if i == 3 {
        "APRIL"@
    } else if i == 4 {
        "MAY"@
    } else if i == 5 {
        "JUNE"@
    } else if i == 6 {
        "JULY"@
    } else if i == 7 {
        "AUGUST"@
    } else if i == 8 {
        "SEPTEMBER"@
    } else if i == 9 {
        "OCTOBER"@
    } else if i == 10 {
        "NOVEMBER"@
    } else if i == 11 {
        "DECEMBER"@
    } else {
        "JANUARY"@
    }
}

pub fn month_name(i: usize) -> (r: &'static str)
    ensures
        r@ == month_label(i as int),
{
    match i {
        1 => "FEBRUARY",
        2 => "MARCH",
        3 => "APRIL",
        4 => "MAY",
        5 => "JUNE",
        6 => "JULY",
        7 => "AUGUST",
        8 => "SEPTEMBER",
        9 => "OCTOBER",
        10 => "NOVEMBER",
        11 => "DECEMBER",
        _ => "JANUARY",
    }
}

pub open spec fn short_month_label(i: int) -> Seq<char> {
    if i == 1 {
        "FEB"@
    } else if i == 2 {
        "MAR"@
    } else if i == 3 {
        "APR"@
    } else if i == 4 {
        "MAY"@
    } else if i == 5 {
        "JUN"@
    } else if i == 6 {
        "JUL"@
    } else if i == 7 {
        "AUG"@
    } else if i == 8 {
        "SEP"@
    } else if i == 9 {
        "OCT"@
    } else if i == 10 {
        "NOV"@
    } else if i == 11 {
        "DEC"@
    } else {
        "JAN"@
    }
}

pub fn short_month_name(i: usize) -> (r: &'static str)
    ensures
        r@ == short_month_label(i as int),
{
    match i {
        1 => "FEB",
        2 => "MAR",
        3 => "APR",
        4 => "MAY",
        5 => "JUN",
        6 => "JUL",
        7 => "AUG",
        8 => "SEP",
        9 => "OCT",
        10 => "NOV",
        11 => "DEC",
        _ => "JAN",
    }
}

/// Two letters for a weekday.
pub open spec fn grid_label(i: int) -> Seq<char> {
    if i == 0 {
        "Su"@
    } else if i == 1 {
        "Mo"@
    } else if i == 2 {
        "Tu"@
    } else if i == 3 {
        "We"@
    } else if i == 4 {
        "Th"@
    } else if i == 5 {
        "Fr"@
    } else {
        "Sa"@
    }
}

fn grid_name(i: usize) -> (r: &'static str)
    ensures
        r@ == grid_label(i as int),
{
    match i {
        0 => "Su",
        1 => "Mo",
        2 => "Tu",
        3 => "We",
        4 => "Th",
        5 => "Fr",
        _ => "Sa",
    }
}

/// A date as it is shown.
pub struct DateParts {
    pub year: String,
    pub weekday: String,
    pub day: String,
    pub month: String,
    pub year_num: i32,
    pub month_index: usize,
    pub day_num: i32,
}

#[verifier::ext_equal]
pub struct DateView {
    pub year: Seq<char>,
    pub weekday: Seq<char>,
    pub day: Seq<char>,
    pub month: Seq<char>,
    pub year_num: int,
    pub month_index: int,
    pub day_num: int,
}

impl View for DateParts {
    type V = DateView;

    open spec fn view(&self) -> DateView {
        DateView {
            year: self.year@,
            weekday: self.weekday@,
            day: self.day@,
            month: self.month@,
            year_num: self.year_num as int,
            month_index: self.month_index as int,
            day_num: self.day_num as int,
        }
    }
}

pub open spec fn between(n: int, low: int, high: int) -> int {
    if n < low {
        low
    } else if n > high {
        high
    } else {
        n
    }
}

/// A clock's date, with fields that are out of range brought into it.
pub open spec fn date_of(tm: Tm) -> DateView {
    let day = between(tm.tm_mday as int, 1, 31);
    let month = between(tm.tm_mon as int, 0, 11);
    DateView {
        year: decimal_int(tm.tm_year + 1900),
        weekday: weekday_label(between(tm.tm_wday as int, 0, 6)),
        day: decimal(day as nat),
        month: month_label(month),
        year_num: tm.tm_year + 1900,
        month_index: month,
        day_num: day,
    }
}

fn clamp(n: i32, low: i32, high: i32) -> (r: i32)
    requires
        low <= high,
    ensures
        r == between(n as int, low as int, high as int),
        low <= r <= high,
{
    if n < low {
        low
    } else if n > high {
        high
    } else {
        n
    }
}

pub fn date_parts(tm: &Tm) -> (r: DateParts)
    requires
        tm.tm_year <= i32::MAX - 1900,
    ensures
        r@ == date_of(*tm),
{
    let year: i32 = tm.tm_year + 1900;
    let month_index: usize = clamp(tm.tm_mon, 0, 11) as usize;
    let day_num: i32 = clamp(tm.tm_mday, 1, 31);
    let year_chars = decimal_int_chars(year as i64);
    let day_chars = decimal_chars(day_num as u64);
    DateParts {
        year: from_chars(&year_chars),
        weekday: weekday_name(clamp(tm.tm_wday, 0, 6) as usize).to_owned(),
        day: from_chars(&day_chars),
        month: month_name(month_index).to_owned(),
        year_num: year,
        month_index,
        day_num,
    }
}

/// The weekday of an epoch day; 0 is Sunday.
pub fn weekday_of(day: i64) -> (r: usize)
    requires
        day < i64::MAX - 4,
    ensures
        r == weekday(day as int),
        r < 7,
{
    let shifted: i64 = day + 4;
    if shifted >= 0 {
        (shifted % 7) as usize
    } else {
        (6 - (-(shifted + 1)) % 7) as usize
    }
}

/// The day of the month of a grid row's Monday; rows start on Sunday.
pub open spec fn row_monday(first_day: int, row: int) -> int {
    row * 7 + 2 - weekday(first_day)
}

/// The week number beside a row of a month's grid, taken from its Monday; none
/// for a row that has no day but a Sunday left.
pub open spec fn row_week(first_day: int, days: int, row: int, week: Option<int>) -> bool {
    if row_monday(first_day, row) > days {
        week is None
    } else {
        week matches Some(w) && iso_week(first_day + row_monday(first_day, row) - 1, w)
    }
}

pub open spec fn as_int(n: Option<i32>) -> Option<int> {
    match n {
        Some(n) => Some(n as int),
        None => None,
    }
}

pub fn calendar_row_week(first_day: i64, days: i32, row: usize) -> (r: Option<i32>)
    requires
        row < MAX_CALENDAR_ROWS,
        days <= 31,
        datable(first_day - 10),
        datable(first_day + 40),
    ensures
        row_week(first_day as int, days as int, row as int, as_int(r)),
{
    proof {
        lemma_datable(first_day - 10);
        lemma_datable(first_day + 40);
    }
    let monday: i64 = row as i64 * 7 + 2 - weekday_of(first_day) as i64;
    if monday > days as i64 {
        return None;
    }
    Some(iso_week_number(first_day + monday - 1))
}

/// Whether the clock has been read yet, and the date it gave.
pub enum DateState {
    Known(DateParts),
    Unknown,
}

pub struct Day {
    pub date: DateState,
    pub calendar_mode: bool,
}

pub open spec fn state_view(date: DateState) -> Option<DateView> {
    match date {
        DateState::Known(parts) => Some(parts@),
        DateState::Unknown => None,
    }
}

fn same_date(a: &DateParts, b: &DateParts) -> (r: bool)
    ensures
        r == (a@ == b@),
{
    same_text(a.year.as_str(), b.year.as_str()) && same_text(a.weekday.as_str(), b.weekday.as_str())
        && same_text(a.day.as_str(), b.day.as_str()) && same_text(
        a.month.as_str(),
        b.month.as_str(),
    ) && a.year_num == b.year_num && a.month_index == b.month_index && a.day_num == b.day_num
}

impl Day {
    /// A card for a reading of the clock, or for none.
    pub fn load(tm: Option<Tm>) -> (r: Self)
        requires
            tm matches Some(tm) ==> tm.tm_year <= i32::MAX - 1900,
        ensures
            state_view(r.date) == (match tm {
                Some(tm) => Some(date_of(tm)),
                None => None,
            }),
            !r.calendar_mode,
    {
        Day {
            date: match tm {
                Some(tm) => DateState::Known(date_parts(&tm)),
                None => DateState::Unknown,
            },
            calendar_mode: false,
        }
    }

    /// What another date leads to.
    pub open spec fn date_leads_to(&self, tm: Option<Tm>, after: &Self, r: bool) -> bool {
        &&& after.calendar_mode == self.calendar_mode
        &&& state_view(after.date) == (match tm {
            Some(tm) => Some(date_of(tm)),
            None => state_view(self.date),
        })
        &&& r == (state_view(after.date) != state_view(self.date))
    }

    /// Takes in a reading of the clock; a failed one keeps the date. Answers
    /// whether the date changed.
    pub fn update(&mut self, tm: Option<Tm>) -> (r: bool)
        requires
            tm matches Some(tm) ==> tm.tm_year <= i32::MAX - 1900,
        ensures
            old(self).date_leads_to(tm, final(self), r),
    {
        match tm {
            None => false,
            Some(tm) => {
                let parts = date_parts(&tm);
                let same = match &self.date {
                    DateState::Known(known) => same_date(known, &parts),
                    DateState::Unknown => false,
                };
                if same {
                    return false;
                }
                self.date = DateState::Known(parts);
                true
            },
        }
    }

    pub fn toggle_mode(&mut self)
        ensures
            final(self).calendar_mode == !old(self).calendar_mode,
            final(self).date == old(self).date,
    {
        self.calendar_mode = !self.calendar_mode;
    }

    pub fn width(&self) -> (r: usize)
        ensures
            r == WIDTH + SHADOW_X_OFFSET,
    {
        WIDTH + SHADOW_X_OFFSET
    }

    pub fn height(&self) -> (r: usize)
        ensures
            r == HEIGHT + SHADOW_Y_OFFSET,
    {
        HEIGHT + SHADOW_Y_OFFSET
    }

    /// Where the card stands and how wide it is: the calendar's takes the
    /// whole width, the date's leaves the week column free.
    pub open spec fn geometry(calendar_mode: bool) -> (int, int) {
        if calendar_mode {
            (0, WIDTH as int)
        } else {
            (WEEK_COL_W as int, BASE_WIDTH as int)
        }
    }

    pub fn card_geometry(&self) -> (r: (usize, usize))
        ensures
            (r.0 as int, r.1 as int) == Day::geometry(self.calendar_mode),
            r.0 <= WEEK_COL_W,
            r.1 <= WIDTH,
    {
        if self.calendar_mode {
            (0, WIDTH)
        } else {
            (WEEK_COL_W, BASE_WIDTH)
        }
    }
}

/// Both cards end at the same column.
pub proof fn lemma_cards_align()
    ensures
        Day::geometry(true).0 + Day::geometry(true).1 == Day::geometry(false).0 + Day::geometry(
            false,
        ).1,
{
}

/// The height of a text's ink; of a cell when it has none.
pub open spec fn ink_height(font: &BitmapFont, text: Seq<char>, h: int) -> bool {
    ||| exists|b: TextInkBounds| #[trigger] ink_box(font, text, b) && h == b.max_y - b.min_y
    ||| (forall|x: int, y: int| !#[trigger] inked(font, text, x, y)) && h == font.spec.cell_h
}

pub fn tight_height(font: &BitmapFont, text: &str) -> (r: usize)
    requires
        font.wf(),
        255 * text@.len() + 2 * span() + 2 <= isize::MAX,
    ensures
        ink_height(font, text@, r as int),
        r <= span(),
{
    match font.text_ink_bounds(text) {
        Some(bounds) => {
            proof {
                font.lemma_ink_range(text@, bounds);
            }
            bounds.height()
        },
        None => font.cell_h(),
    }
}

/// The four lines of the single date, the year with an edge of light and
/// shade, each below the ink of the one before.
pub open spec fn date_shapes(
    calendar_mode: bool,
    year: Seq<char>,
    weekday: Seq<char>,
    day: Seq<char>,
    month: Seq<char>,
    year_h: int,
    weekday_h: int,
    day_h: int,
) -> Seq<ShapeView> {
    let (left, width) = Day::geometry(calendar_mode);
    let weekday_y = TOP_GAP + year_h + LABEL_GAP;
    let day_y = weekday_y + weekday_h + NUMBER_GAP;
    let month_y = day_y + day_h + MONTH_GAP;
    let line = |font: usize, text: Seq<char>, y: int, color: Index|
        ShapeView::Tight { font: font as int, text, left, width, y, color };
    seq![
        line(LABEL_FONT, year, TOP_GAP - 1, PURPLE),
        line(LABEL_FONT, year, TOP_GAP + 1, ROSE),
        line(LABEL_FONT, year, TOP_GAP as int, CREAM),
        line(LABEL_FONT, weekday, weekday_y, BLACK),
        line(NUMBER_FONT, day, day_y, CRIMSON),
        line(LABEL_FONT, month, month_y, BLACK),
    ]
}

impl Day {
    fn line(&self, font: usize, text: &str, y: usize, color: Index) -> (r: Shape)
        requires
            y <= 16 * span(),
        ensures
            r@ == (ShapeView::Tight {
                font: font as int,
                text: text@,
                left: Day::geometry(self.calendar_mode).0,
                width: Day::geometry(self.calendar_mode).1,
                y: y as int,
                color,
            }),
    {
        let (left, width) = self.card_geometry();
        Shape::Tight {
            font,
            text: text.to_owned(),
            left: left as isize,
            width,
            y: y as isize,
            color,
        }
    }

    /// The single date, for texts and the heights of their ink.
    pub fn render_day_text(
        &self,
        year: &str,
        weekday: &str,
        day: &str,
        month: &str,
        year_h: usize,
        weekday_h: usize,
        day_h: usize,
    ) -> (r: Vec<Shape>)
        requires
            year_h <= span(),
            weekday_h <= span(),
            day_h <= span(),
        ensures
            shape_views(r@) == date_shapes(
                self.calendar_mode,
                year@,
                weekday@,
                day@,
                month@,
                year_h as int,
                weekday_h as int,
                day_h as int,
            ),
    {
        let weekday_y: usize = TOP_GAP + year_h + LABEL_GAP;
        let day_y: usize = weekday_y + weekday_h + NUMBER_GAP;
        let month_y: usize = day_y + day_h + MONTH_GAP;
        let mut out: Vec<Shape> = Vec::new();
        out.push(self.line(LABEL_FONT, year, TOP_GAP - 1, PURPLE));
        out.push(self.line(LABEL_FONT, year, TOP_GAP + 1, ROSE));
        out.push(self.line(LABEL_FONT, year, TOP_GAP, CREAM));
        out.push(self.line(LABEL_FONT, weekday, weekday_y, BLACK));
        out.push(self.line(NUMBER_FONT, day, day_y, CRIMSON));
        out.push(self.line(LABEL_FONT, month, month_y, BLACK));
        assert(shape_views(out@) =~= date_shapes(
            self.calendar_mode,
            year@,
            weekday@,
            day@,
            month@,
            year_h as int,
            weekday_h as int,
            day_h as int,
        ));
        out
    }

    /// The single date in its fonts; question marks when the clock was never
    /// read.
    pub fn render_day(&self, label_font: &BitmapFont, number_font: &BitmapFont) -> (r: Vec<Shape>)
        requires
            label_font.wf(),
            number_font.wf(),
            self.date matches DateState::Known(date) ==> 255 * date.year@.len() + 2 * span() + 2
                <= isize::MAX && 255 * date.weekday@.len() + 2 * span() + 2 <= isize::MAX && 255
                * date.day@.len() + 2 * span() + 2 <= isize::MAX,
        ensures
            exists|year_h: int, weekday_h: int, day_h: int| #[trigger]
                date_heights(self.shown(), label_font, number_font, year_h, weekday_h, day_h)
                    && shape_views(r@) == date_shapes(
                    self.calendar_mode,
                    self.shown().0,
                    self.shown().1,
                    self.shown().2,
                    self.shown().3,
                    year_h,
                    weekday_h,
                    day_h,
                ),
    {
        let (year, weekday, day, month) = match &self.date {
            DateState::Known(date) => (
                date.year.as_str(),
                date.weekday.as_str(),
                date.day.as_str(),
                date.month.as_str(),
            ),
            DateState::Unknown => ("????", "?", "?", "?"),
        };
        proof {
            reveal_strlit("????");
            reveal_strlit("?");
        }
        let year_h: usize = tight_height(label_font, year);
        let weekday_h: usize = tight_height(label_font, weekday);
        let day_h: usize = tight_height(number_font, day);
        proof {
            assert(date_heights(
                self.shown(),
                label_font,
                number_font,
                year_h as int,
                weekday_h as int,
                day_h as int,
            ));
        }
        self.render_day_text(year, weekday, day, month, year_h, weekday_h, day_h)
    }

    /// The texts of the single date.
    pub open spec fn shown(&self) -> (Seq<char>, Seq<char>, Seq<char>, Seq<char>) {
        match self.date {
            DateState::Known(date) => (date.year@, date.weekday@, date.day@, date.month@),
            DateState::Unknown => ("????"@, "?"@, "?"@, "?"@),
        }
    }
}

pub open spec fn date_heights(
    shown: (Seq<char>, Seq<char>, Seq<char>, Seq<char>),
    label_font: &BitmapFont,
    number_font: &BitmapFont,
    year_h: int,
    weekday_h: int,
    day_h: int,
) -> bool {
    &&& ink_height(label_font, shown.0, year_h)
    &&& ink_height(label_font, shown.1, weekday_h)
    &&& ink_height(number_font, shown.2, day_h)
}

/// A text in a column of the grid.
pub open spec fn cell(text: Seq<char>, col: int, y: int, color: Index) -> ShapeView {
    ShapeView::Centered {
        font: CALENDAR_FONT as int,
        text,
        left: CALENDAR_LEFT + col * 13,
        width: 13,
        y,
        color,
    }
}

/// The title over the grid.
pub open spec fn title_of(month_index: int, year: int) -> Seq<char> {
    short_month_label(month_index) + seq![' '] + decimal_int(year)
}

/// The title and the first weekdays.
pub open spec fn header(month_index: int, year: int, n: int) -> Seq<ShapeView>
    decreases n,
{
    if n <= 0 {
        seq![
            ShapeView::Centered {
                font: CALENDAR_FONT as int,
                text: title_of(month_index, year),
                left: Day::geometry(true).0,
                width: Day::geometry(true).1,
                y: CALENDAR_TITLE_Y as int,
                color: CREAM,
            },
        ]
    } else {
        header(month_index, year, n - 1).push(
            cell(grid_label(n - 1), n - 1, CALENDAR_WEEKDAY_Y as int, BLACK),
        )
    }
}

/// The first days of a month in the grid; today stands on a disc.
pub open spec fn day_cells(first_weekday: int, today: int, cell_h: int, n: int) -> Seq<ShapeView>
    decreases n,
{
    if n <= 0 {
        Seq::empty()
    } else {
        let index = first_weekday + n - 1;
        let col = index % 7;
        let y = CALENDAR_GRID_Y + (index / 7) * 12;
        let before = day_cells(first_weekday, today, cell_h, n - 1);
        if n == today {
            before.push(
                ShapeView::Disc {
                    x: CALENDAR_LEFT + col * 13 + 6 - 1,
                    y: y + cell_h / 2,
                    radius_x: TODAY_CIRCLE_RADIUS as int,
                    radius_y: TODAY_CIRCLE_RADIUS as int,
                    color: CRIMSON,
                },
            ).push(cell(decimal(n as nat), col, y, CREAM))
        } else {
            before.push(cell(decimal(n as nat), col, y, BLACK))
        }
    }
}

/// The week numbers beside the first rows.
pub open spec fn week_cells(weeks: Seq<Option<int>>, n: int) -> Seq<ShapeView>
    decreases n,
{
    if n <= 0 {
        Seq::empty()
    } else {
        let before = week_cells(weeks, n - 1);
        match weeks[n - 1] {
            Some(week) => before.push(
                ShapeView::Centered {
                    font: CALENDAR_FONT as int,
                    text: seq!['w'] + decimal_int(week),
                    left: WEEK_NUM_LEFT as int,
                    width: WEEK_COL_W as int,
                    y: CALENDAR_GRID_Y + (n - 1) * 12,
                    color: CRIMSON,
                },
            ),
            None => before,
        }
    }
}

/// Whether numbers are the week numbers of a month's rows.
pub open spec fn weeks_of(first_day: int, days: int, weeks: Seq<Option<int>>) -> bool {
    &&& weeks.len() == MAX_CALENDAR_ROWS
    &&& forall|row: int|
        0 <= row < MAX_CALENDAR_ROWS ==> row_week(first_day, days, row, #[trigger] weeks[row])
}

/// A month's calendar: the title, the weekdays, the days and the week numbers.
pub open spec fn calendar_shapes(
    date: DateView,
    cell_h: int,
    weeks: Seq<Option<int>>,
) -> Seq<ShapeView> {
    let first_day = epoch_day(date.year_num, date.month_index + 1, 1);
    let days = month_length(date.year_num, date.month_index + 1);
    header(date.month_index, date.year_num, 7) + day_cells(
        weekday(first_day),
        date.day_num,
        cell_h,
        days,
    ) + week_cells(weeks, MAX_CALENDAR_ROWS as int)
}

fn calendar_cell(text: &str, col: usize, y: isize, color: Index) -> (r: Shape)
    requires
        col < 7,
    ensures
        r@ == cell(text@, col as int, y as int, color),
{
    Shape::Centered {
        font: CALENDAR_FONT,
        text: text.to_owned(),
        left: (CALENDAR_LEFT + col * 13) as isize,
        width: 13,
        y,
        color,
    }
}

/// The month of a date as a calendar, for a font's height.
#[verifier::rlimit(40)]
pub fn render_calendar(date: &DateParts, cell_h: usize) -> (r: Vec<Shape>)
    requires
        date.month_index <= 11,
        cell_h <= span(),
        datable(epoch_day(date.year_num as int, date.month_index + 1, 1) - 10),
        datable(epoch_day(date.year_num as int, date.month_index + 1, 1) + 40),
    ensures
        exists|weeks: Seq<Option<int>>| #[trigger]
            weeks_of(
                epoch_day(date.year_num as int, date.month_index + 1, 1),
                month_length(date.year_num as int, date.month_index + 1),
                weeks,
            ) && shape_views(r@) == calendar_shapes(date@, cell_h as int, weeks),
{
    let mut out: Vec<Shape> = Vec::new();
    let mut title = to_chars(short_month_name(date.month_index));
    title.push(' ');
    let year_chars = decimal_int_chars(date.year_num as i64);
    append_chars(&mut title, &year_chars);
    assert(title@ =~= title_of(date.month_index as int, date.year_num as int));
    out.push(
        Shape::Centered {
            font: CALENDAR_FONT,
            text: from_chars(&title),
            left: 0,
            width: WIDTH,
            y: CALENDAR_TITLE_Y,
            color: CREAM,
        },
    );
    let mut col: usize = 0;
    assert(shape_views(out@) =~= header(date.month_index as int, date.year_num as int, 0));
    while col < 7
        invariant
            col <= 7,
            shape_views(out@) =~= header(
                date.month_index as int,
                date.year_num as int,
                col as int,
            ),
        decreases 7 - col,
    {
        let ghost before = out@;
        out.push(calendar_cell(grid_name(col), col, CALENDAR_WEEKDAY_Y, BLACK));
        assert(shape_views(out@) =~= shape_views(before).push(out@.last()@));
        col += 1;
    }
    let ghost head = shape_views(out@);
    let month: i32 = date.month_index as i32 + 1;
    let first_day: i64 = days_from_civil(date.year_num, month, 1);
    proof {
        lemma_datable(first_day - 10);
        lemma_datable(first_day + 40);
    }
    let first_weekday: usize = weekday_of(first_day);
    let days: i32 = days_in_month(date.year_num, month);
    let mut day: i32 = 0;
    assert(shape_views(out@) =~= head + day_cells(
        first_weekday as int,
        date.day_num as int,
        cell_h as int,
        0,
    ));
    while day < days
        invariant
            0 <= day <= days <= 31,
            first_weekday < 7,
            cell_h <= span(),
            shape_views(out@) =~= head + day_cells(
                first_weekday as int,
                date.day_num as int,
                cell_h as int,
                day as int,
            ),
        decreases days - day,
    {
        let index: usize = first_weekday + day as usize;
        let col: usize = index % 7;
        let y: isize = CALENDAR_GRID_Y + (index / 7) as isize * 12;
        let today = day + 1 == date.day_num;
        let ghost before = out@;
        if today {
            out.push(
                Shape::Disc {
                    x: (CALENDAR_LEFT + col * 13 + 6) as isize - 1,
                    y: y + (cell_h / 2) as isize,
                    radius_x: TODAY_CIRCLE_RADIUS,
                    radius_y: TODAY_CIRCLE_RADIUS,
                    color: CRIMSON,
                },
            );
            assert(shape_views(out@) =~= shape_views(before).push(out@.last()@));
        }
        let ghost middle = out@;
        let digits = decimal_chars((day + 1) as u64);
        let text = from_chars(&digits);
        out.push(
            calendar_cell(
                text.as_str(),
                col,
                y,
                if today {
                    CREAM
                } else {
                    BLACK
                },
            ),
        );
        assert(shape_views(out@) =~= shape_views(middle).push(out@.last()@));
        day += 1;
    }
    let ghost grid = shape_views(out@);
    let ghost mut weeks: Seq<Option<int>> = Seq::empty();
    let mut row: usize = 0;
    assert(shape_views(out@) =~= grid + week_cells(weeks, 0));
    while row < MAX_CALENDAR_ROWS
        invariant
            row <= MAX_CALENDAR_ROWS,
            days <= 31,
            datable(first_day - 10),
            datable(first_day + 40),
            weeks.len() == row,
            forall|k: int|
                0 <= k < row ==> row_week(first_day as int, days as int, k, #[trigger] weeks[k]),
            shape_views(out@) =~= grid + week_cells(weeks, row as int),
        decreases MAX_CALENDAR_ROWS - row,
    {
        let week = calendar_row_week(first_day, days, row);
        let ghost before = out@;
        let ghost now = weeks.push(as_int(week));
        proof {
            lemma_week_cells_prefix(now, weeks, row as int);
        }
        if let Some(week) = week {
            let mut text: Vec<char> = Vec::new();
            text.push('w');
            let digits = decimal_int_chars(week as i64);
            append_chars(&mut text, &digits);
            assert(text@ =~= seq!['w'] + decimal_int(week as int));
            out.push(
                Shape::Centered {
                    font: CALENDAR_FONT,
                    text: from_chars(&text),
                    left: WEEK_NUM_LEFT as isize,
                    width: WEEK_COL_W,
                    y: CALENDAR_GRID_Y + row as isize * 12,
                    color: CRIMSON,
                },
            );
            assert(shape_views(out@) =~= shape_views(before).push(out@.last()@));
        }
        proof {
            weeks = now;
        }
        row += 1;
    }
    proof {
        assert(weeks_of(first_day as int, days as int, weeks));
        assert(shape_views(out@) =~= calendar_shapes(date@, cell_h as int, weeks));
    }
    out
}

proof fn lemma_week_cells_prefix(a: Seq<Option<int>>, b: Seq<Option<int>>, n: int)
    requires
        0 <= n <= a.len(),
        n <= b.len(),
        forall|k: int| 0 <= k < n ==> a[k] == b[k],
    ensures
        week_cells(a, n) == week_cells(b, n),
    decreases n,
{
    if n > 0 {
        lemma_week_cells_prefix(a, b, n - 1);
    }
}

/// A row of the grid beyond the month's last day has no week number, and every
/// row with a Monday of the month has the number of its week.
pub proof fn lemma_week_labels(first_day: int, days: int, row: int, week: Option<int>)
    requires
        row_week(first_day, days, row, week),
    ensures
        week is None <==> row_monday(first_day, row) > days,
        weekday(first_day + row_monday(first_day, row) - 1) == 1,
{
}

/// The days of the week from Sunday and the months from January, by their names. A
/// calendar's column has the first two letters of its day, and its title the first
/// three of its month.
pub proof fn lemma_labels_are(i: int)
    ensures
        i == 0 ==> weekday_label(i) == "SUNDAY"@ && grid_label(i) == "Su"@,
        i == 1 ==> weekday_label(i) == "MONDAY"@ && grid_label(i) == "Mo"@,
        i == 2 ==> weekday_label(i) == "TUESDAY"@ && grid_label(i) == "Tu"@,
        i == 3 ==> weekday_label(i) == "WEDNESDAY"@ && grid_label(i) == "We"@,
        i == 4 ==> weekday_label(i) == "THURSDAY"@ && grid_label(i) == "Th"@,
        i == 5 ==> weekday_label(i) == "FRIDAY"@ && grid_label(i) == "Fr"@,
        i == 6 ==> weekday_label(i) == "SATURDAY"@ && grid_label(i) == "Sa"@,
        0 <= i <= 11 ==> short_month_label(i) == month_label(i).take(3),
        i == 0 ==> month_label(i) == "JANUARY"@,
        i == 1 ==> month_label(i) == "FEBRUARY"@,
        i == 2 ==> month_label(i) == "MARCH"@,
        i == 3 ==> month_label(i) == "APRIL"@,
        i == 4 ==> month_label(i) == "MAY"@,
        i == 5 ==> month_label(i) == "JUNE"@,
        i == 6 ==> month_label(i) == "JULY"@,
        i == 7 ==> month_label(i) == "AUGUST"@,
        i == 8 ==> month_label(i) == "SEPTEMBER"@,
        i == 9 ==> month_label(i) == "OCTOBER"@,
        i == 10 ==> month_label(i) == "NOVEMBER"@,
        i == 11 ==> month_label(i) == "DECEMBER"@,
{
    reveal_strlit("JANUARY");
    reveal_strlit("FEBRUARY");
    reveal_strlit("MARCH");
    reveal_strlit("APRIL");
    reveal_strlit("MAY");
    reveal_strlit("JUNE");
    reveal_strlit("JULY");
    reveal_strlit("AUGUST");
    reveal_strlit("SEPTEMBER");
    reveal_strlit("OCTOBER");
    reveal_strlit("NOVEMBER");
    reveal_strlit("DECEMBER");
    reveal_strlit("JAN");
    reveal_strlit("FEB");
    reveal_strlit("MAR");
    reveal_strlit("APR");
    reveal_strlit("JUN");
    reveal_strlit("JUL");
    reveal_strlit("AUG");
    reveal_strlit("SEP");
    reveal_strlit("OCT");
    reveal_strlit("NOV");
    reveal_strlit("DEC");
    assert("JANUARY"@.take(3) =~= "JAN"@);
    assert("FEBRUARY"@.take(3) =~= "FEB"@);
    assert("MARCH"@.take(3) =~= "MAR"@);
    assert("APRIL"@.take(3) =~= "APR"@);
    assert("MAY"@.take(3) =~= "MAY"@);
    assert("JUNE"@.take(3) =~= "JUN"@);
    assert("JULY"@.take(3) =~= "JUL"@);
    assert("AUGUST"@.take(3) =~= "AUG"@);
    assert("SEPTEMBER"@.take(3) =~= "SEP"@);
    assert("OCTOBER"@.take(3) =~= "OCT"@);
    assert("NOVEMBER"@.take(3) =~= "NOV"@);
    assert("DECEMBER"@.take(3) =~= "DEC"@);
}

/// The date on the card is the clock's: its year counts from 1900, its months and
/// days of the week from zero. What lies outside the calendar counts as the nearest
/// that does not.
pub proof fn lemma_date_of_is(tm: Tm)
    ensures
        date_of(tm).year_num == 1900 + tm.tm_year,
        date_of(tm).year == decimal_int(1900 + tm.tm_year),
        1 <= tm.tm_mday <= 31 ==> date_of(tm).day_num == tm.tm_mday && date_of(tm).day == decimal(
            tm.tm_mday as nat,
        ),
        tm.tm_mday < 1 ==> date_of(tm).day_num == 1,
        tm.tm_mday > 31 ==> date_of(tm).day_num == 31,
        0 <= tm.tm_mon <= 11 ==> date_of(tm).month_index == tm.tm_mon && date_of(tm).month
            == month_label(tm.tm_mon as int),
        tm.tm_mon < 0 ==> date_of(tm).month_index == 0,
        tm.tm_mon > 11 ==> date_of(tm).month_index == 11,
        0 <= tm.tm_wday <= 6 ==> date_of(tm).weekday == weekday_label(tm.tm_wday as int),
{
}

/// The lines of the date card stand below each other, none over another: the year
/// with its shades one row above and below it, the weekday, the number of the day
/// and the month. All are set in the card's width.
pub proof fn lemma_date_card_is(
    calendar_mode: bool,
    year: Seq<char>,
    weekday: Seq<char>,
    day: Seq<char>,
    month: Seq<char>,
    year_h: int,
    weekday_h: int,
    day_h: int,
)
    ensures
        ({
            let s = date_shapes(
                calendar_mode,
                year,
                weekday,
                day,
                month,
                year_h,
                weekday_h,
                day_h,
            );
            let left = if calendar_mode {
                0int
            } else {
                23
            };
            let width = if calendar_mode {
                139int
            } else {
                116
            };
            let at = |font: int, text: Seq<char>, y: int, color: Index|
                ShapeView::Tight { font, text, left, width, y, color };
            &&& s.len() == 6
            &&& s[0] == at(0, year, 9, 11)
            &&& s[1] == at(0, year, 11, 10)
            &&& s[2] == at(0, year, 10, 5)
            &&& s[3] == at(0, weekday, year_h + 36, 15)
            &&& s[4] == at(1, day, year_h + weekday_h + 42, 9)
            &&& s[5] == at(0, month, year_h + weekday_h + day_h + 48, 15)
        }),
{
}

/// Above a calendar stands its title in the whole width, and under it the days of
/// the week, thirteen columns apart.
pub proof fn lemma_header_is(month_index: int, year: int, n: int, i: int)
    requires
        0 <= i < n,
    ensures
        header(month_index, year, n).len() == n + 1,
        header(month_index, year, n)[0] == (ShapeView::Centered {
            font: 2,
            text: short_month_label(month_index) + seq![' '] + decimal_int(year),
            left: 0,
            width: 139,
            y: 11,
            color: 5,
        }),
        header(month_index, year, n)[i + 1] == (ShapeView::Centered {
            font: 2,
            text: grid_label(i),
            left: 35 + 13 * i,
            width: 13,
            y: 34,
            color: 15,
        }),
    decreases n,
{
    if n > 1 {
        lemma_header_is(
            month_index,
            year,
            n - 1,
            if i < n - 1 {
                i
            } else {
                0
            },
        );
    } else {
        assert(header(month_index, year, 0).len() == 1);
    }
}

/// Each day of the month has its number in the column of its day of the week and
/// the row of its week, counted from the first day's. Today is drawn light, and its
/// disc stands before it.
pub proof fn lemma_day_cells_are(first_weekday: int, today: int, cell_h: int, n: int, day: int)
    requires
        0 <= first_weekday <= 6,
        1 <= day <= n,
    ensures
        ({
            let s = day_cells(first_weekday, today, cell_h, n);
            let col = (first_weekday + day - 1) % 7;
            let row = (first_weekday + day - 1) / 7;
            let i = day - 1 + if 1 <= today <= day {
                1int
            } else {
                0
            };
            &&& s.len() == n + if 1 <= today <= n {
                1int
            } else {
                0
            }
            &&& s[i] == (ShapeView::Centered {
                font: 2,
                text: decimal(day as nat),
                left: 35 + 13 * col,
                width: 13,
                y: 47 + 12 * row,
                color: if day == today {
                    5
                } else {
                    15
                },
            })
            &&& day == today ==> s[i - 1] == (ShapeView::Disc {
                x: 40 + 13 * col,
                y: 47 + 12 * row + cell_h / 2,
                radius_x: 6,
                radius_y: 6,
                color: 9,
            })
        }),
    decreases n,
{
    if day < n {
        lemma_day_cells_are(first_weekday, today, cell_h, n - 1, day);
    } else if n > 1 {
        lemma_day_cells_are(first_weekday, today, cell_h, n - 1, 1);
    } else {
        assert(day_cells(first_weekday, today, cell_h, 0).len() == 0);
    }
}

/// Each row that has a week has its number left of it, behind a w, in row order.
pub proof fn lemma_week_cells_are(weeks: Seq<Option<int>>, n: int)
    requires
        0 <= n,
    ensures
        week_cells(weeks, 0).len() == 0,
        weeks[n] matches Some(week) ==> week_cells(weeks, n + 1) == week_cells(weeks, n).push(
            ShapeView::Centered {
                font: 2,
                text: seq!['w'] + decimal_int(week),
                left: 12,
                width: 23,
                y: 47 + 12 * n,
                color: 9,
            },
        ),
        weeks[n] is None ==> week_cells(weeks, n + 1) == week_cells(weeks, n),
{
}

/// The calendar draws all days of its month, the first in the column of its own
/// day of the week, between its heading and the weeks.
pub proof fn lemma_calendar_is(date: DateView, cell_h: int, weeks: Seq<Option<int>>)
    ensures
        ({
            let first = epoch_day(date.year_num, date.month_index + 1, 1);
            let days = month_length(date.year_num, date.month_index + 1);
            let s = calendar_shapes(date, cell_h, weeks);
            let head = header(date.month_index, date.year_num, 7);
            let cells = day_cells((first + 4) % 7, date.day_num, cell_h, days);
            &&& s.take(head.len() as int) == head
            &&& s.subrange(head.len() as int, head.len() as int + cells.len() as int) == cells
            &&& s.skip(head.len() as int + cells.len() as int) == week_cells(weeks, 6)
        }),
{
    let first = epoch_day(date.year_num, date.month_index + 1, 1);
    let days = month_length(date.year_num, date.month_index + 1);
    let s = calendar_shapes(date, cell_h, weeks);
    let head = header(date.month_index, date.year_num, 7);
    let cells = day_cells((first + 4) % 7, date.day_num, cell_h, days);
    assert(s.take(head.len() as int) =~= head);
    assert(s.subrange(head.len() as int, head.len() as int + cells.len() as int) =~= cells);
    assert(s.skip(head.len() as int + cells.len() as int) =~= week_cells(weeks, 6));
}

/// The Mondays of a calendar's rows are seven days apart, the first at most one
/// row's length from the first of the month.
pub proof fn lemma_row_mondays(first_day: int, row: int)
    ensures
        row_monday(first_day, row + 1) == row_monday(first_day, row) + 7,
        -4 <= row_monday(first_day, 0) <= 2,
        crate::localtime::weekday(first_day + row_monday(first_day, row) - 1) == 1,
{
}

/// A new date is shown as it is, and where none could be read the old one stays; it
/// says whether that changed anything.
pub proof fn lemma_dates_lead(day: &Day, tm: Option<Tm>, after: &Day, r: bool)
    requires
        day.date_leads_to(tm, after, r),
    ensures
        after.calendar_mode == day.calendar_mode,
        tm is None ==> state_view(after.date) == state_view(day.date) && !r,
        tm matches Some(tm) ==> (state_view(after.date) matches Some(date) && date.year_num == 1900
            + tm.tm_year && (1 <= tm.tm_mday <= 31 ==> date.day_num == tm.tm_mday) && (0 <= tm.tm_mon
            <= 11 ==> date.month_index == tm.tm_mon)),
        r <==> state_view(after.date) != state_view(day.date),
{
}

/// A line is as high as its ink, and one without ink as high as its font.
pub proof fn lemma_ink_height_is(font: &BitmapFont, text: Seq<char>, b: TextInkBounds, h: int)
    ensures
        ink_box(font, text, b) && ink_height(font, text, h) ==> h == b.max_y - b.min_y,
        (forall|x: int, y: int| !#[trigger] inked(font, text, x, y)) && ink_height(font, text, h)
            && font.spec.cell_h != h ==> exists|c: TextInkBounds| #[trigger] ink_box(font, text, c),
{
    if ink_box(font, text, b) && ink_height(font, text, h) {
        let ink = |x: int, y: int| inked(font, text, x, y);
        let y = choose|y: int| #[trigger] ink(b.min_x as int, y);
        assert(ink(b.min_x as int, y));
        assert(inked(font, text, b.min_x as int, y));
        assert(exists|c: TextInkBounds| #[trigger]
            ink_box(font, text, c) && h == c.max_y - c.min_y);
        let c = choose|c: TextInkBounds| #[trigger]
            ink_box(font, text, c) && h == c.max_y - c.min_y;
        crate::text::center::lemma_tight_unique(b, c, ink);
    }
}

/// The number beside a row is the week of the row's Monday: the week of its Thursday's
/// year, counted from the first of January.
pub proof fn lemma_week_numbers_are(
    first_day: int,
    days: int,
    row: int,
    week: int,
    y: int,
    m: int,
    d: int,
)
    requires
        row_week(first_day, days, row, Some(week)),
        crate::localtime::valid_date(y, m, d),
        epoch_day(y, m, d) == first_day + row_monday(first_day, row) + 2,
    ensures
        7 * (week - 1) <= epoch_day(y, m, d) - epoch_day(y, 1, 1) < 7 * week,
{
    let monday = first_day + row_monday(first_day, row) - 1;
    assert(weekday(monday) == 1);
    assert(crate::localtime::week_thursday(monday) == monday + 3);
    let exact = (epoch_day(y, m, d) - epoch_day(y, 1, 1)) / 7 + 1;
    assert(iso_week(monday, exact));
    crate::localtime::lemma_iso_week_unique(monday, week, exact);
}

/// A date that was read is shown as it is, and one that never was as question marks.
pub proof fn lemma_shown_is(day: &Day)
    ensures
        day.date matches DateState::Known(date) ==> day.shown().0 == date.year@ && day.shown().1
            == date.weekday@ && day.shown().2 == date.day@ && day.shown().3 == date.month@,
        day.date is Unknown ==> day.shown() == ("????"@, "?"@, "?"@, "?"@),
{
}

} // verus!
