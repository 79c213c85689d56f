//! What was done this week: a bar for each day, split by priority.
use vstd::prelude::*;

use crate::chars::{decimal, decimal_chars, from_chars, same_text};
use crate::graphics::Index;
use crate::localtime::{
    civil_from_days, datable, days_from_civil, epoch_day, lemma_datable, valid_date, Tm,
};
use crate::palette_color::{BLUE, CREAM, CRIMSON, GREEN, ORANGE};
use crate::paths::under;
use crate::scene::{shape_views, Shape, ShapeView};
use crate::toodle::{done_file_path, done_name, section_tag, tag, DONE_DIR_NAME};

verus! {

pub const DAYS: usize = 7;

pub const PRIORITY_COUNT: usize = 4;

pub const WIDTH: usize = 210;

pub const HEIGHT: usize = 132;

pub const TOP_GAP: usize = 10;

pub const SIDE_PAD: usize = 14;

pub const LABEL_GAP: usize = 4;

pub const BAR_GAP: usize = 6;

/// Between a bar and the count above it.
pub const COUNT_GAP: usize = 2;

/// A single item is still a visible sliver.
pub const MIN_SEGMENT_H: usize = 2;

/// Seconds between readings.
pub const REFRESH_SECS: u64 = 2;

/// A count's part of the chart, never less than a sliver unless it is none.
pub open spec fn scaled(count: int, max_total: int, chart_h: int) -> int {
    if count == 0 {
        0
    } else if count * chart_h / max_total > MIN_SEGMENT_H {
        count * chart_h / max_total
    } else {
        MIN_SEGMENT_H as int
    }
}

/// The first of the tallest segments.
pub open spec fn tallest(h: Seq<int>) -> int {
    let a: int = if h[1] > h[0] {
        1
    } else {
        0
    };
    let b: int = if h[2] > h[a] {
        2
    } else {
        a
    };
    if h[3] > h[b] {
        3
    } else {
        b
    }
}

pub open spec fn total4(h: Seq<int>) -> int {
    h[0] + h[1] + h[2] + h[3]
}

pub open spec fn scaled_all(counts: Seq<usize>, max_total: int, chart_h: int) -> Seq<int> {
    Seq::new(4, |i: int| scaled(counts[i] as int, max_total, chart_h))
}

/// The segments of a bar: each count's part of the chart; what slivers add
/// beyond the chart is taken from the tallest.
pub open spec fn segments(counts: Seq<usize>, max_total: int, chart_h: int) -> Seq<int> {
    if max_total == 0 {
        seq![0, 0, 0, 0]
    } else {
        let h = scaled_all(counts, max_total, chart_h);
        let over = total4(h) - chart_h;
        let i = tallest(h);
        if over <= 0 {
            h
        } else {
            h.update(
                i,
                if h[i] > over {
                    h[i] - over
                } else {
                    0
                },
            )
        }
    }
}

pub open spec fn ints(h: Seq<usize>) -> Seq<int> {
    Seq::new(h.len(), |i: int| h[i] as int)
}

fn segment(count: usize, max_total: usize, chart_h: usize) -> (r: usize)
    requires
        max_total > 0,
        count * chart_h <= usize::MAX,
    ensures
        r == scaled(count as int, max_total as int, chart_h as int),
{
    if count == 0 {
        return 0;
    }
    let part: usize = count * chart_h / max_total;
    if part > MIN_SEGMENT_H {
        part
    } else {
        MIN_SEGMENT_H
    }
}

/// The heights of a day's segments.
pub fn segment_heights(
    day_counts: &[usize; PRIORITY_COUNT],
    max_total: usize,
    chart_h: usize,
) -> (r: [usize; PRIORITY_COUNT])
    requires
        forall|i: int| 0 <= i < 4 ==> #[trigger] day_counts@[i] * chart_h <= usize::MAX,
        max_total > 0 ==> total4(scaled_all(day_counts@, max_total as int, chart_h as int))
            <= usize::MAX,
    ensures
        ints(r@) == segments(day_counts@, max_total as int, chart_h as int),
{
    if max_total == 0 {
        let none: [usize; 4] = [0, 0, 0, 0];
        assert(ints(none@) =~= segments(day_counts@, 0, chart_h as int));
        return none;
    }
    assert(day_counts@[0] * chart_h <= usize::MAX);
    assert(day_counts@[1] * chart_h <= usize::MAX);
    assert(day_counts@[2] * chart_h <= usize::MAX);
    assert(day_counts@[3] * chart_h <= usize::MAX);
    let h0: usize = segment(day_counts[0], max_total, chart_h);
    let h1: usize = segment(day_counts[1], max_total, chart_h);
    let h2: usize = segment(day_counts[2], max_total, chart_h);
    let h3: usize = segment(day_counts[3], max_total, chart_h);
    let ghost h = scaled_all(day_counts@, max_total as int, chart_h as int);
    let sum: usize = h0 + h1 + h2 + h3;
    let first: [usize; 4] = [h0, h1, h2, h3];
    assert(ints(first@) =~= h);
    if sum <= chart_h {
        return first;
    }
    let over: usize = sum - chart_h;
    let a: usize = if h1 > h0 {
        h1
    } else {
        h0
    };
    let b: usize = if h2 > a {
        h2
    } else {
        a
    };
    let top: usize = if h3 > b {
        h3
    } else {
        b
    };
    let cut: usize = if top > over {
        top - over
    } else {
        0
    };
    let r: [usize; 4] = if h3 > b {
        [h0, h1, h2, cut]
    } else if h2 > a {
        [h0, h1, cut, h3]
    } else if h1 > h0 {
        [h0, cut, h2, h3]
    } else {
        [cut, h1, h2, h3]
    };
    assert(ints(r@) =~= segments(day_counts@, max_total as int, chart_h as int));
    r
}

proof fn lemma_scaled_sum(counts: Seq<usize>, max_total: int, chart_h: int)
    requires
        counts.len() == 4,
        max_total > 0,
        0 <= chart_h,
        counts[0] + counts[1] + counts[2] + counts[3] <= max_total,
    ensures
        counts[0] * chart_h / max_total + counts[1] * chart_h / max_total + counts[2] * chart_h
            / max_total + counts[3] * chart_h / max_total <= chart_h,
        forall|i: int| 0 <= i < 4 ==> 0 <= #[trigger] counts[i] * chart_h / max_total,
{
    let (a, b, c, d) = (
        counts[0] * chart_h / max_total,
        counts[1] * chart_h / max_total,
        counts[2] * chart_h / max_total,
        counts[3] * chart_h / max_total,
    );
    lemma_floor(counts[0] as int, chart_h, max_total);
    lemma_floor(counts[1] as int, chart_h, max_total);
    lemma_floor(counts[2] as int, chart_h, max_total);
    lemma_floor(counts[3] as int, chart_h, max_total);
    let n = counts[0] + counts[1] + counts[2] + counts[3];
    assert((a + b + c + d) * max_total <= n * chart_h) by (nonlinear_arith)
        requires
            a * max_total <= counts[0] * chart_h,
            b * max_total <= counts[1] * chart_h,
            c * max_total <= counts[2] * chart_h,
            d * max_total <= counts[3] * chart_h,
            n == counts[0] + counts[1] + counts[2] + counts[3],
    ;
    assert(n * chart_h <= max_total * chart_h) by (nonlinear_arith)
        requires
            n <= max_total,
            0 <= chart_h,
    ;
    assert(a + b + c + d <= chart_h) by (nonlinear_arith)
        requires
            (a + b + c + d) * max_total <= max_total * chart_h,
            max_total > 0,
    ;
    assert forall|i: int| 0 <= i < 4 implies 0 <= #[trigger] counts[i] * chart_h / max_total by {
        lemma_floor(counts[i] as int, chart_h, max_total);
    }
}

proof fn lemma_floor(count: int, chart_h: int, max_total: int)
    requires
        0 <= count,
        0 <= chart_h,
        0 < max_total,
    ensures
        0 <= count * chart_h / max_total,
        (count * chart_h / max_total) * max_total <= count * chart_h,
{
    let p = count * chart_h;
    assert(0 <= p) by (nonlinear_arith)
        requires
            0 <= count,
            0 <= chart_h,
            p == count * chart_h,
    ;
    assert(0 <= p / max_total && (p / max_total) * max_total <= p) by (nonlinear_arith)
        requires
            0 <= p,
            0 < max_total,
    ;
}

/// A bar never outgrows a chart that has room for four slivers, and in a chart
/// a little taller every count keeps at least a sliver.
pub proof fn lemma_bar_fits(counts: Seq<usize>, max_total: int, chart_h: int)
    requires
        counts.len() == 4,
        0 < max_total,
        counts[0] + counts[1] + counts[2] + counts[3] <= max_total,
        8 <= chart_h,
    ensures
        total4(segments(counts, max_total, chart_h)) <= chart_h,
        chart_h >= 12 ==> forall|i: int|
            0 <= i < 4 && counts[i] > 0 ==> #[trigger] segments(counts, max_total, chart_h)[i]
                >= MIN_SEGMENT_H,
        forall|i: int|
            0 <= i < 4 && counts[i] == 0 ==> #[trigger] segments(counts, max_total, chart_h)[i]
                == 0,
{
    lemma_scaled_sum(counts, max_total, chart_h);
    let (a, b, c, d) = (
        counts[0] * chart_h / max_total,
        counts[1] * chart_h / max_total,
        counts[2] * chart_h / max_total,
        counts[3] * chart_h / max_total,
    );
    assert(0 <= a && 0 <= b && 0 <= c && 0 <= d);
    let h = scaled_all(counts, max_total, chart_h);
    let i = tallest(h);
    let s = segments(counts, max_total, chart_h);
    assert(counts[0] == 0 ==> a == 0) by (nonlinear_arith)
        requires
            a == counts[0] * chart_h / max_total,
            max_total > 0,
    ;
    assert(counts[1] == 0 ==> b == 0) by (nonlinear_arith)
        requires
            b == counts[1] * chart_h / max_total,
            max_total > 0,
    ;
    assert(counts[2] == 0 ==> c == 0) by (nonlinear_arith)
        requires
            c == counts[2] * chart_h / max_total,
            max_total > 0,
    ;
    assert(counts[3] == 0 ==> d == 0) by (nonlinear_arith)
        requires
            d == counts[3] * chart_h / max_total,
            max_total > 0,
    ;
    assert(h[0] <= h[i] && h[1] <= h[i] && h[2] <= h[i] && h[3] <= h[i]);
    if total4(h) > chart_h {
        let rest = total4(h) - h[i];
        assert(rest <= chart_h && (chart_h >= 12 ==> rest <= chart_h - 2));
        assert(total4(s) == total4(h) - h[i] + s[i]);
    }
    assert forall|k: int| 0 <= k < 4 && counts[k] > 0 && chart_h >= 12 implies #[trigger] s[k]
        >= MIN_SEGMENT_H by {
        assert(h[k] >= MIN_SEGMENT_H);
    }
    assert forall|k: int| 0 <= k < 4 && counts[k] == 0 implies #[trigger] s[k] == 0 by {
        assert(h[k] == 0);
    }
}

/// What identifies the state of a file: it changes when the file is written.
#[derive(Clone, Copy, PartialEq, Eq, Structural, Debug)]
pub struct Fingerprint {
    pub inode: u64,
    pub len: u64,
    pub modified_secs: i64,
    pub modified_nanos: i64,
}

/// A day's file of one priority, with its count of done items.
pub struct DayFile {
    pub path: String,
    pub id: Option<Fingerprint>,
    pub count: usize,
}

/// Counts of done items, one row of priorities for each day from Sunday on,
/// and the files they came from in the same order.
pub struct Stats {
    pub counts: Vec<[usize; PRIORITY_COUNT]>,
    pub files: Vec<DayFile>,
}

/// The epoch day of the Sunday that a week starts with.
pub open spec fn week_sunday(tm: Tm) -> int {
    epoch_day(tm.tm_year + 1900, tm.tm_mon + 1, tm.tm_mday as int) - tm.tm_wday % 7
}

/// A reading of the clock whose week the calendar has.
pub open spec fn clock_ok(tm: Tm) -> bool {
    &&& tm.tm_year <= i32::MAX - 1900
    &&& 0 <= tm.tm_mon <= 11
    &&& datable(week_sunday(tm))
    &&& datable(week_sunday(tm) + 6)
}

/// The file of a day of the week and a priority.
pub open spec fn week_path(root: Seq<char>, day: int, priority: int, path: Seq<char>) -> bool {
    exists|y: int, m: int, d: int|
        #![trigger valid_date(y, m, d)]
        valid_date(y, m, d) && epoch_day(y, m, d) == day && path == under(
            under(root, DONE_DIR_NAME@),
            done_name(y, m, d, tag(priority)),
        )
}

/// The files of this week, four for each day from Sunday to Saturday.
pub fn week_paths(root: &str, tm: &Tm) -> (r: Vec<String>)
    requires
        clock_ok(*tm),
    ensures
        r@.len() == 28,
        forall|i: int|
            0 <= i < 28 ==> week_path(
                root@,
                week_sunday(*tm) + i / 4,
                i % 4,
                #[trigger] r@[i]@,
            ),
{
    let today: i64 = days_from_civil(tm.tm_year + 1900, tm.tm_mon + 1, tm.tm_mday);
    let wday: i64 = if tm.tm_wday >= 0 {
        (tm.tm_wday % 7) as i64
    } else {
        6 - (-(tm.tm_wday as i64 + 1)) % 7
    };
    assert(wday == tm.tm_wday % 7);
    let sunday: i64 = today - wday;
    let mut paths: Vec<String> = Vec::new();
    let mut i: usize = 0;
    while i < 28
        invariant
            i <= 28,
            paths@.len() == i,
            sunday == week_sunday(*tm),
            datable(sunday as int),
            datable(sunday + 6),
            forall|j: int|
                0 <= j < i ==> week_path(
                    root@,
                    week_sunday(*tm) + j / 4,
                    j % 4,
                    #[trigger] paths@[j]@,
                ),
        decreases 28 - i,
    {
        proof {
            lemma_datable(sunday as int);
        }
        let day: i64 = sunday + (i / 4) as i64;
        let (y, m, d) = civil_from_days(day);
        let path = done_file_path(root, y, m, d, section_tag(i % 4));
        proof {
            assert(valid_date(y as int, m as int, d as int));
            assert(week_path(root@, week_sunday(*tm) + i as int / 4, i as int % 4, path@));
        }
        paths.push(path);
        i += 1;
    }
    paths
}

impl Stats {
    /// Seven days of four files.
    pub open spec fn wf(&self) -> bool {
        self.counts@.len() == DAYS && self.files@.len() == 28
    }

    /// Before anything is read: nothing done.
    pub fn new() -> (r: Self)
        ensures
            r.wf(),
            forall|i: int, p: int|
                0 <= i < 7 && 0 <= p < 4 ==> #[trigger] r.counts@[i]@[p] == 0,
            forall|i: int|
                0 <= i < 28 ==> (#[trigger] r.files@[i]).path@.len() == 0 && r.files@[i].id is None
                    && r.files@[i].count == 0,
    {
        let mut counts: Vec<[usize; 4]> = Vec::new();
        let mut files: Vec<DayFile> = Vec::new();
        let mut i: usize = 0;
        while i < 7
            invariant
                i <= 7,
                counts@.len() == i,
                forall|j: int, p: int|
                    0 <= j < i && 0 <= p < 4 ==> #[trigger] counts@[j]@[p] == 0,
            decreases 7 - i,
        {
            counts.push([0, 0, 0, 0]);
            i += 1;
        }
        let mut j: usize = 0;
        while j < 28
            invariant
                j <= 28,
                files@.len() == j,
                forall|k: int|
                    0 <= k < j ==> (#[trigger] files@[k]).path@.len() == 0 && files@[k].id is None
                        && files@[k].count == 0,
            decreases 28 - j,
        {
            files.push(DayFile { path: String::new(), id: None, count: 0 });
            j += 1;
        }
        Stats { counts, files }
    }

    /// Whether a file has to be counted again: another day's file stands in
    /// its place, or it was written since.
    pub fn needs_count(&self, i: usize, path: &str, id: Option<Fingerprint>) -> (r: bool)
        requires
            self.wf(),
            i < 28,
        ensures
            r == !(path@ == self.files@[i as int].path@ && id == self.files@[i as int].id),
    {
        let file = &self.files[i];
        let same_id = match (file.id, id) {
            (Some(a), Some(b)) => a == b,
            (None, None) => true,
            _ => false,
        };
        !(same_text(path, file.path.as_str()) && same_id)
    }

    /// What a whole reading of the week leads to.
    pub open spec fn commit_leads_to(&self, files: Vec<DayFile>, after: &Self, r: bool) -> bool {
        &&& after.files == files
        &&& forall|i: int, p: int|
            0 <= i < 7 && 0 <= p < 4 ==> #[trigger] after.counts@[i]@[p] == files@[4 * i
                + p].count
        &&& r == exists|i: int|
            0 <= i < 28 && (#[trigger] files@[i]).count != self.files@[i].count
    }

    /// Takes a whole reading of the week over; answers whether a count
    /// changed.
    pub fn commit(&mut self, files: Vec<DayFile>) -> (r: bool)
        requires
            old(self).wf(),
            files@.len() == 28,
        ensures
            final(self).wf(),
            old(self).commit_leads_to(files, final(self), r),
    {
        let mut changed = false;
        let mut i: usize = 0;
        while i < 28
            invariant
                i <= 28,
                self.wf(),
                *self == *old(self),
                files@.len() == 28,
                changed == exists|j: int|
                    0 <= j < i && (#[trigger] files@[j]).count != self.files@[j].count,
            decreases 28 - i,
        {
            if files[i].count != self.files[i].count {
                assert(files@[i as int].count != self.files@[i as int].count);
                changed = true;
            }
            i += 1;
        }
        let mut counts: Vec<[usize; 4]> = Vec::new();
        let mut day: usize = 0;
        while day < 7
            invariant
                day <= 7,
                counts@.len() == day,
                files@.len() == 28,
                forall|j: int, p: int|
                    0 <= j < day && 0 <= p < 4 ==> #[trigger] counts@[j]@[p] == files@[4 * j
                        + p].count,
            decreases 7 - day,
        {
            let row: [usize; 4] = [
                files[4 * day].count,
                files[4 * day + 1].count,
                files[4 * day + 2].count,
                files[4 * day + 3].count,
            ];
            counts.push(row);
            day += 1;
        }
        self.counts = counts;
        self.files = files;
        changed
    }
}

/// The color of a priority.
pub open spec fn priority_color(priority: int) -> Index {
    if priority == 0 {
        CRIMSON
    } else if priority == 1 {
        GREEN
    } else if priority == 2 {
        ORANGE
    } else {
        BLUE
    }
}

/// The initial of a weekday.
pub open spec fn initial(col: int) -> Seq<char> {
    if col == 0 || col == 6 {
        "S"@
    } else if col == 1 {
        "M"@
    } else if col == 2 || col == 4 {
        "T"@
    } else if col == 3 {
        "W"@
    } else {
        "F"@
    }
}

pub open spec fn day_total(counts: Seq<usize>) -> int {
    counts[0] + counts[1] + counts[2] + counts[3]
}

/// The busiest of the first days.
pub open spec fn busiest(week: Seq<[usize; PRIORITY_COUNT]>, n: int) -> int
    decreases n,
{
    if n <= 0 {
        0
    } else {
        let before = busiest(week, n - 1);
        let own = day_total(week[n - 1]@);
        if own > before {
            own
        } else {
            before
        }
    }
}

/// What is left of one length beyond another, if anything.
pub open spec fn beyond(a: int, b: int) -> int {
    if a > b {
        a - b
    } else {
        0
    }
}

/// The row below the bars, and their room above it, for a font's height. A tall
/// font leaves them no room.
pub open spec fn chart_bottom(cell_h: int) -> int {
    beyond(HEIGHT as int, cell_h + LABEL_GAP)
}

pub open spec fn chart_height(cell_h: int) -> int {
    beyond(chart_bottom(cell_h), TOP_GAP + 2 * cell_h + LABEL_GAP + COUNT_GAP)
}

/// The height of the first segments together.
pub open spec fn stacked(h: Seq<int>, n: int) -> int
    decreases n,
{
    if n <= 0 {
        0
    } else {
        stacked(h, n - 1) + h[n - 1]
    }
}

/// The first segments of a bar, from the bottom up.
pub open spec fn bar(h: Seq<int>, x: int, bottom: int, n: int) -> Seq<ShapeView>
    decreases n,
{
    if n <= 0 {
        Seq::empty()
    } else {
        let before = bar(h, x, bottom, n - 1);
        if h[n - 1] == 0 {
            before
        } else {
            before.push(
                ShapeView::Fill {
                    x,
                    y: bottom - stacked(h, n),
                    w: 20,
                    h: h[n - 1],
                    color: priority_color(n - 1),
                },
            )
        }
    }
}

/// A day: its bar, the count above it if anything was done, and its initial.
pub open spec fn day_shapes(
    counts: Seq<usize>,
    max_total: int,
    cell_h: int,
    col: int,
) -> Seq<ShapeView> {
    let x = SIDE_PAD + 26 * col;
    let bottom = chart_bottom(cell_h);
    let h = segments(counts, max_total, chart_height(cell_h));
    let label = ShapeView::Centered {
        font: 0,
        text: initial(col),
        left: x,
        width: 20,
        y: bottom + LABEL_GAP,
        color: CREAM,
    };
    if day_total(counts) > 0 {
        bar(h, x, bottom, 4).push(
            ShapeView::Centered {
                font: 0,
                text: decimal(day_total(counts) as nat),
                left: x,
                width: 20,
                y: beyond(bottom - stacked(h, 4), cell_h + COUNT_GAP),
                color: CREAM,
            },
        ).push(label)
    } else {
        bar(h, x, bottom, 4).push(label)
    }
}

/// The title and the first days.
pub open spec fn week_shapes(
    week: Seq<[usize; PRIORITY_COUNT]>,
    max_total: int,
    cell_h: int,
    n: int,
) -> Seq<ShapeView>
    decreases n,
{
    if n <= 0 {
        seq![
            ShapeView::Centered {
                font: 0,
                text: "DONE THIS WEEK"@,
                left: 0,
                width: WIDTH as int,
                y: TOP_GAP as int,
                color: CREAM,
            },
        ]
    } else {
        week_shapes(week, max_total, cell_h, n - 1) + day_shapes(
            week[n - 1]@,
            max_total,
            cell_h,
            n - 1,
        )
    }
}

proof fn lemma_busiest(week: Seq<[usize; PRIORITY_COUNT]>, n: int, i: int)
    requires
        0 <= i < n <= week.len(),
    ensures
        day_total(week[i]@) <= busiest(week, n),
    decreases n,
{
    if i < n - 1 {
        lemma_busiest(week, n - 1, i);
    }
}

proof fn lemma_segments_small(counts: Seq<usize>, max_total: int, chart_h: int)
    requires
        counts.len() == 4,
        0 <= max_total,
        day_total(counts) <= max_total,
        0 <= chart_h,
    ensures
        0 <= stacked(segments(counts, max_total, chart_h), 4) <= chart_h + 6,
        forall|n: int|
            0 <= n <= 4 ==> 0 <= #[trigger] stacked(segments(counts, max_total, chart_h), n)
                <= stacked(segments(counts, max_total, chart_h), 4),
        max_total > 0 ==> total4(scaled_all(counts, max_total, chart_h)) <= chart_h + 8,
        forall|i: int| 0 <= i < 4 ==> 0 <= #[trigger] segments(counts, max_total, chart_h)[i],
{
    let s = segments(counts, max_total, chart_h);
    if max_total > 0 {
        lemma_scaled_sum(counts, max_total, chart_h);
        let h = scaled_all(counts, max_total, chart_h);
        assert(0 <= counts[0] * chart_h / max_total);
        assert(0 <= counts[1] * chart_h / max_total);
        assert(0 <= counts[2] * chart_h / max_total);
        assert(0 <= counts[3] * chart_h / max_total);
        assert(0 <= h[0] && 0 <= h[1] && 0 <= h[2] && 0 <= h[3]);
        let i = tallest(h);
        assert(h[0] <= h[i] && h[1] <= h[i] && h[2] <= h[i] && h[3] <= h[i]);
        assert(total4(h) <= chart_h + 8);
        if total4(h) > chart_h {
            assert(h[i] >= MIN_SEGMENT_H);
            assert(total4(s) == total4(h) - h[i] + s[i]);
        }
        assert(total4(s) <= chart_h + 6);
    }
    assert(0 <= s[0] && 0 <= s[1] && 0 <= s[2] && 0 <= s[3]);
    reveal_with_fuel(stacked, 5);
    assert(stacked(s, 4) == total4(s));
    assert forall|n: int| 0 <= n <= 4 implies 0 <= #[trigger] stacked(s, n) <= stacked(s, 4) by {
        assert(n == 0 || n == 1 || n == 2 || n == 3 || n == 4);
    }
}

impl Stats {
    /// Whether the machine can count a day and its bar, and the bar stays on the
    /// chart.
    pub open spec fn day_fits(&self, i: int, cell_h: int) -> bool {
        let counts = self.counts@[i]@;
        let max_total = busiest(self.counts@, 7);
        &&& day_total(counts) <= usize::MAX
        &&& forall|k: int|
            0 <= k < 4 ==> #[trigger] counts[k] * chart_height(cell_h) <= usize::MAX
        &&& stacked(segments(counts, max_total, chart_height(cell_h)), 4) <= chart_bottom(cell_h)
    }

    /// Whether the week can be drawn with a font of a height.
    pub open spec fn drawable(&self, cell_h: int) -> bool {
        &&& TOP_GAP + 2 * cell_h + LABEL_GAP + COUNT_GAP <= usize::MAX
        &&& forall|i: int| 0 <= i < 7 ==> #[trigger] self.day_fits(i, cell_h)
    }

    /// A week whose totals the machine can scale is drawable with every font up
    /// to the height that still leaves three slivers room above the initials.
    pub proof fn lemma_drawable(&self, cell_h: int)
        requires
            self.wf(),
            0 <= cell_h <= 122,
            forall|i: int|
                0 <= i < 7 ==> day_total(#[trigger] self.counts@[i]@) * HEIGHT <= usize::MAX,
        ensures
            self.drawable(cell_h),
    {
        let chart_h = chart_height(cell_h);
        assert forall|i: int| 0 <= i < 7 implies #[trigger] self.day_fits(i, cell_h) by {
            let row = self.counts@[i]@;
            assert(day_total(row) * HEIGHT <= usize::MAX);
            lemma_busiest(self.counts@, 7, i);
            lemma_segments_small(row, busiest(self.counts@, 7), chart_h);
            assert forall|k: int| 0 <= k < 4 implies #[trigger] row[k] * chart_h <= usize::MAX by {
                assert(row[k] * chart_h <= day_total(row) * HEIGHT) by (nonlinear_arith)
                    requires
                        0 <= row[k] <= day_total(row),
                        0 <= chart_h <= HEIGHT,
                ;
            }
        }
    }

    /// The week's chart for a font's height.
    pub fn shapes(&self, cell_h: usize) -> (r: Vec<Shape>)
        requires
            self.wf(),
            self.drawable(cell_h as int),
        ensures
            shape_views(r@) == week_shapes(
                self.counts@,
                busiest(self.counts@, 7),
                cell_h as int,
                7,
            ),
    {
        let mut out: Vec<Shape> = Vec::new();
        out.push(
            Shape::Centered {
                font: 0,
                text: "DONE THIS WEEK".to_owned(),
                left: 0,
                width: WIDTH,
                y: TOP_GAP as isize,
                color: CREAM,
            },
        );
        let mut max_total: usize = 0;
        let mut i: usize = 0;
        while i < 7
            invariant
                i <= 7,
                self.wf(),
                self.drawable(cell_h as int),
                max_total == busiest(self.counts@, i as int),
            decreases 7 - i,
        {
            assert(self.day_fits(i as int, cell_h as int));
            let row = self.counts[i];
            let total: usize = row[0] + row[1] + row[2] + row[3];
            if total > max_total {
                max_total = total;
            }
            i += 1;
        }
        assert(shape_views(out@) =~= week_shapes(
            self.counts@,
            max_total as int,
            cell_h as int,
            0,
        ));
        let mut col: usize = 0;
        while col < 7
            invariant
                col <= 7,
                self.wf(),
                self.drawable(cell_h as int),
                max_total == busiest(self.counts@, 7),
                shape_views(out@) =~= week_shapes(
                    self.counts@,
                    max_total as int,
                    cell_h as int,
                    col as int,
                ),
            decreases 7 - col,
        {
            let row = self.counts[col];
            let ghost so_far = shape_views(out@);
            proof {
                lemma_busiest(self.counts@, 7, col as int);
                assert(self.day_fits(col as int, cell_h as int));
            }
            let mut day = self.day(row, max_total, cell_h, col);
            let ghost added = shape_views(day@);
            let ghost before = out@;
            let ghost day0 = day@;
            out.append(&mut day);
            assert(shape_views(out@) =~= so_far + added);
            col += 1;
        }
        out
    }

    fn day(
        &self,
        row: [usize; PRIORITY_COUNT],
        max_total: usize,
        cell_h: usize,
        col: usize,
    ) -> (r: Vec<Shape>)
        requires
            TOP_GAP + 2 * cell_h + LABEL_GAP + COUNT_GAP <= usize::MAX,
            col < 7,
            day_total(row@) <= max_total,
            forall|k: int|
                0 <= k < 4 ==> #[trigger] row@[k] * chart_height(cell_h as int) <= usize::MAX,
            stacked(segments(row@, max_total as int, chart_height(cell_h as int)), 4)
                <= chart_bottom(cell_h as int),
        ensures
            shape_views(r@) == day_shapes(
                row@,
                max_total as int,
                cell_h as int,
                col as int,
            ),
    {
        let bottom: usize = HEIGHT.saturating_sub(cell_h + LABEL_GAP);
        let chart_h: usize = bottom.saturating_sub(TOP_GAP + 2 * cell_h + LABEL_GAP + COUNT_GAP);
        assert(bottom == chart_bottom(cell_h as int) && chart_h == chart_height(cell_h as int));
        let ghost h = segments(row@, max_total as int, chart_h as int);
        proof {
            lemma_segments_small(row@, max_total as int, chart_h as int);
        }
        let heights = segment_heights(&row, max_total, chart_h);
        assert(forall|i: int| 0 <= i < 4 ==> #[trigger] heights@[i] == ints(heights@)[i]);
        let x: isize = (SIDE_PAD + 26 * col) as isize;
        let mut out: Vec<Shape> = Vec::new();
        let mut y: usize = bottom;
        let mut p: usize = 0;
        assert(shape_views(out@) =~= bar(h, x as int, bottom as int, 0));
        while p < 4
            invariant
                p <= 4,
                h.len() == 4,
                ints(heights@) == h,
                bottom <= 132,
                forall|n: int| 0 <= n <= 4 ==> 0 <= #[trigger] stacked(h, n) <= stacked(h, 4),
                stacked(h, 4) <= bottom,
                y == bottom - stacked(h, p as int),
                shape_views(out@) =~= bar(h, x as int, bottom as int, p as int),
                forall|i: int| 0 <= i < 4 ==> #[trigger] heights@[i] == h[i],
            decreases 4 - p,
        {
            assert(stacked(h, p + 1) == stacked(h, p as int) + h[p as int]);
            assert(heights@[p as int] == h[p as int]);
            let seg: usize = heights[p];
            if seg > 0 {
                y = y - seg;
                let color: Index = match p {
                    0 => CRIMSON,
                    1 => GREEN,
                    2 => ORANGE,
                    _ => BLUE,
                };
                let ghost before = out@;
                out.push(Shape::Fill { x, y: y as isize, w: 20, h: seg, color });
                assert(shape_views(out@) =~= shape_views(before).push(out@.last()@));
            }
            p += 1;
        }
        let total: usize = row[0] + row[1] + row[2] + row[3];
        let ghost bars = out@;
        if total > 0 {
            let taken: usize = cell_h + COUNT_GAP;
            let digits = decimal_chars(total as u64);
            out.push(
                Shape::Centered {
                    font: 0,
                    text: from_chars(&digits),
                    left: x,
                    width: 20,
                    y: y.saturating_sub(taken) as isize,
                    color: CREAM,
                },
            );
            assert(shape_views(out@) =~= shape_views(bars).push(out@.last()@));
        }
        let ghost counted = out@;
        let name = match col {
            0 => "S",
            1 => "M",
            2 => "T",
            3 => "W",
            4 => "T",
            5 => "F",
            _ => "S",
        };
        out.push(
            Shape::Centered {
                font: 0,
                text: name.to_owned(),
                left: x,
                width: 20,
                y: (bottom + LABEL_GAP) as isize,
                color: CREAM,
            },
        );
        assert(shape_views(out@) =~= shape_views(counted).push(out@.last()@));
        out
    }
}

/// A part of a bar is as high as its share of the chart, rounded down, but at least
/// two; nothing has no height.
pub proof fn lemma_scaled_is(count: int, max_total: int, chart_h: int)
    requires
        0 <= count,
        0 < max_total,
        0 <= chart_h,
    ensures
        scaled(0, max_total, chart_h) == 0,
        count > 0 ==> scaled(count, max_total, chart_h) >= 2,
        ({
            let h = scaled(count, max_total, chart_h);
            h > 2 ==> h * max_total <= count * chart_h < (h + 1) * max_total
        }),
        count > 0 && count * chart_h >= 3 * max_total ==> scaled(count, max_total, chart_h) > 2,
{
    let top = count * chart_h;
    let q = top / max_total;
    vstd::arithmetic::div_mod::lemma_fundamental_div_mod(top, max_total);
    vstd::arithmetic::div_mod::lemma_mod_bound(top, max_total);
    assert(q * max_total == max_total * q) by (nonlinear_arith);
    assert((q + 1) * max_total == q * max_total + max_total) by (nonlinear_arith);
    if top >= 3 * max_total {
        assert(q >= 3) by (nonlinear_arith)
            requires
                top >= 3 * max_total,
                top < (q + 1) * max_total,
                max_total > 0,
        ;
    }
}

/// A bar that fits is the shares of its parts. One that does not gives up what is
/// over from its tallest part, the first of several, and leaves the others.
pub proof fn lemma_segments_are(counts: Seq<usize>, max_total: int, chart_h: int, i: int)
    requires
        counts.len() == 4,
        0 < max_total,
        0 <= i < 4,
    ensures
        ({
            let h = Seq::new(4, |k: int| scaled(counts[k] as int, max_total, chart_h));
            let sum = h[0] + h[1] + h[2] + h[3];
            let s = segments(counts, max_total, chart_h);
            let t = tallest(h);
            &&& s.len() == 4
            &&& sum <= chart_h ==> s[i] == h[i]
            &&& 0 <= t < 4
            &&& h[i] <= h[t]
            &&& i < t ==> h[i] < h[t]
            &&& sum > chart_h && i != t ==> s[i] == h[i]
            &&& sum > chart_h && h[t] > sum - chart_h ==> s[t] == h[t] - (sum - chart_h)
            &&& sum > chart_h && h[t] <= sum - chart_h ==> s[t] == 0
        }),
{
    let h = Seq::new(4, |k: int| scaled(counts[k] as int, max_total, chart_h));
    assert(h =~= scaled_all(counts, max_total, chart_h));
}

/// The week of a day begins as many days before it as its weekday counts from
/// Sunday; the files of what was done that week lie in the archive, one for each
/// day and section.
pub proof fn lemma_week_is(tm: Tm, root: Seq<char>, y: int, m: int, d: int, priority: int)
    requires
        0 <= tm.tm_wday < 7,
        valid_date(y, m, d),
    ensures
        week_sunday(tm) + tm.tm_wday == epoch_day(1900 + tm.tm_year, 1 + tm.tm_mon, tm.tm_mday as int),
        week_path(
            root,
            epoch_day(y, m, d),
            priority,
            root + "/toodle_done/"@ + done_name(y, m, d, tag(priority)),
        ),
        forall|path: Seq<char>| #[trigger]
            week_path(root, epoch_day(y, m, d), priority, path) ==> path == root + "/toodle_done/"@
                + done_name(y, m, d, tag(priority)),
{
    reveal_strlit("toodle_done");
    reveal_strlit("/toodle_done/");
    assert forall|name: Seq<char>|
        #![trigger under(under(root, DONE_DIR_NAME@), name)]
        under(under(root, DONE_DIR_NAME@), name) == root + "/toodle_done/"@ + name by {
        assert(under(under(root, DONE_DIR_NAME@), name) =~= root + "/toodle_done/"@ + name);
    }
    assert forall|path: Seq<char>| #[trigger]
        week_path(root, epoch_day(y, m, d), priority, path) implies path == root
        + "/toodle_done/"@ + done_name(y, m, d, tag(priority)) by {
        let (y2, m2, d2) = choose|y2: int, m2: int, d2: int|
            #![trigger valid_date(y2, m2, d2)]
            valid_date(y2, m2, d2) && epoch_day(y2, m2, d2) == epoch_day(y, m, d) && path == under(
                under(root, DONE_DIR_NAME@),
                done_name(y2, m2, d2, tag(priority)),
            );
        crate::localtime::lemma_date_unique(y, m, d, y2, m2, d2);
    }
}

/// The colors of the sections' parts, and the letters of the days from Sunday.
pub proof fn lemma_chart_signs(i: int)
    ensures
        priority_color(0) == 9,
        priority_color(1) == 7,
        priority_color(2) == 8,
        priority_color(3) == 13,
        0 <= i < 7 ==> initial(i) == crate::day::weekday_label(i).take(1),
{
    reveal_strlit("S");
    reveal_strlit("M");
    reveal_strlit("T");
    reveal_strlit("W");
    reveal_strlit("F");
    reveal_strlit("SUNDAY");
    reveal_strlit("MONDAY");
    reveal_strlit("TUESDAY");
    reveal_strlit("WEDNESDAY");
    reveal_strlit("THURSDAY");
    reveal_strlit("FRIDAY");
    reveal_strlit("SATURDAY");
    assert("SUNDAY"@.take(1) =~= "S"@);
    assert("MONDAY"@.take(1) =~= "M"@);
    assert("TUESDAY"@.take(1) =~= "T"@);
    assert("WEDNESDAY"@.take(1) =~= "W"@);
    assert("THURSDAY"@.take(1) =~= "T"@);
    assert("FRIDAY"@.take(1) =~= "F"@);
    assert("SATURDAY"@.take(1) =~= "S"@);
}

/// The busiest day's total is no less than any day's, and one of theirs.
pub proof fn lemma_busiest_is(week: Seq<[usize; PRIORITY_COUNT]>, n: int, i: int)
    requires
        0 <= i < n <= week.len(),
    ensures
        ({
            let total = |k: int| week[k]@[0] + week[k]@[1] + week[k]@[2] + week[k]@[3];
            &&& total(i) <= busiest(week, n)
            &&& busiest(week, n) > 0 ==> exists|k: int|
                0 <= k < n && #[trigger] day_total(week[k]@) == busiest(week, n)
        }),
    decreases n,
{
    if n > 1 {
        lemma_busiest_is(
            week,
            n - 1,
            if i < n - 1 {
                i
            } else {
                0
            },
        );
        if busiest(week, n) == day_total(week[n - 1]@) {
            assert(day_total(week[n - 1]@) == busiest(week, n));
        }
    } else {
        assert(busiest(week, 0) == 0);
        assert(day_total(week[0]@) == busiest(week, 1));
    }
}

/// The chart lies between the heading and the letters, with its gaps.
pub proof fn lemma_chart_lies(cell_h: int)
    requires
        0 <= cell_h <= 37,
    ensures
        chart_bottom(cell_h) + 4 + cell_h == 132,
        chart_bottom(cell_h) - chart_height(cell_h) == 16 + 2 * cell_h,
{
}

/// The parts of a bar stand on one another from the bottom up, each as high as its
/// share and in its section's color; a part without height is not drawn.
pub proof fn lemma_bar_is(h: Seq<int>, x: int, bottom: int, n: int)
    requires
        0 <= n < h.len(),
    ensures
        bar(h, x, bottom, 0).len() == 0,
        h[n] == 0 ==> bar(h, x, bottom, n + 1) == bar(h, x, bottom, n),
        h[n] != 0 ==> bar(h, x, bottom, n + 1) == bar(h, x, bottom, n).push(
            ShapeView::Fill {
                x,
                y: bottom - stacked(h, n) - h[n],
                w: 20,
                h: h[n],
                color: priority_color(n),
            },
        ),
        stacked(h, 0) == 0,
        stacked(h, n + 1) == stacked(h, n) + h[n],
{
}

/// A day of the chart: its bar, the number of what was done above it where there
/// was anything, and its letter below; the days stand twenty-six columns apart.
pub proof fn lemma_day_chart_is(counts: Seq<usize>, max_total: int, cell_h: int, col: int)
    ensures
        ({
            let s = day_shapes(counts, max_total, cell_h, col);
            let x = 14 + 26 * col;
            let bottom = chart_bottom(cell_h);
            let h = segments(counts, max_total, chart_height(cell_h));
            let total = counts[0] + counts[1] + counts[2] + counts[3];
            let parts = bar(h, x, bottom, 4);
            let top = bottom - stacked(h, 4);
            &&& s.take(parts.len() as int) == parts
            &&& s[s.len() - 1] == (ShapeView::Centered {
                font: 0,
                text: initial(col),
                left: x,
                width: 20,
                y: bottom + 4,
                color: 5,
            })
            &&& total <= 0 ==> s.len() == parts.len() + 1
            &&& total > 0 ==> s.len() == parts.len() + 2 && s[parts.len() as int] == (
            ShapeView::Centered {
                font: 0,
                text: decimal(total as nat),
                left: x,
                width: 20,
                y: if top > cell_h + 2 {
                    top - cell_h - 2
                } else {
                    0
                },
                color: 5,
            })
        }),
{
    let s = day_shapes(counts, max_total, cell_h, col);
    let h = segments(counts, max_total, chart_height(cell_h));
    let parts = bar(h, 14 + 26 * col, chart_bottom(cell_h), 4);
    assert(s.take(parts.len() as int) =~= parts);
}

/// The chart's picture is its heading and then its days in order.
pub proof fn lemma_week_chart_is(
    week: Seq<[usize; PRIORITY_COUNT]>,
    max_total: int,
    cell_h: int,
    n: int,
)
    requires
        0 <= n,
    ensures
        week_shapes(week, max_total, cell_h, 0) == seq![
            ShapeView::Centered {
                font: 0,
                text: "DONE THIS WEEK"@,
                left: 0,
                width: 210,
                y: 10,
                color: 5,
            },
        ],
        week_shapes(week, max_total, cell_h, n + 1) == week_shapes(week, max_total, cell_h, n)
            + day_shapes(week[n]@, max_total, cell_h, n),
{
}

/// A whole reading of the week takes the place of the last one: every day has its four
/// counts, and it says exactly when one of them is another than before.
pub proof fn lemma_commits_lead(before: &Stats, files: Vec<DayFile>, after: &Stats, r: bool, i: int)
    requires
        before.commit_leads_to(files, after, r),
        0 <= i < 28,
    ensures
        after.files == files,
        after.counts@[i / 4]@[i % 4] == files@[i].count,
        files@[i].count != before.files@[i].count ==> r,
        (forall|k: int| 0 <= k < 28 ==> (#[trigger] files@[k]).count == before.files@[k].count)
            ==> !r,
{
    assert(4 * (i / 4) + i % 4 == i);
    assert(after.counts@[i / 4]@[i % 4] == files@[4 * (i / 4) + i % 4].count);
}

} // verus!
