//! Where the widgets sit: bottom-anchored positions for a given window height,
//! and the height that shows them all.
use vstd::prelude::*;

use crate::day::WEEK_COL_W;

verus! {

#[derive(Clone, Copy, PartialEq, Eq, Structural, Debug)]
pub enum WidgetId {
    Puter,
    Toodle,
    Fwends,
    Twirl,
    Wavey,
    Fizzle,
    Day,
    Budgit,
    Stats,
    Hunger,
    Gauges,
}

pub const WIDGET_COUNT: usize = 11;

impl WidgetId {
    /// The widget's place in tables of one entry per widget.
    pub open spec fn place(self) -> int {
        match self {
            WidgetId::Puter => 0,
            WidgetId::Toodle => 1,
            WidgetId::Fwends => 2,
            WidgetId::Twirl => 3,
            WidgetId::Wavey => 4,
            WidgetId::Fizzle => 5,
            WidgetId::Day => 6,
            WidgetId::Budgit => 7,
            WidgetId::Stats => 8,
            WidgetId::Hunger => 9,
            WidgetId::Gauges => 10,
        }
    }

    pub fn index(self) -> (r: usize)
        ensures
            r == self.place(),
            r < WIDGET_COUNT,
    {
        match self {
            WidgetId::Puter => 0,
            WidgetId::Toodle => 1,
            WidgetId::Fwends => 2,
            WidgetId::Twirl => 3,
            WidgetId::Wavey => 4,
            WidgetId::Fizzle => 5,
            WidgetId::Day => 6,
            WidgetId::Budgit => 7,
            WidgetId::Stats => 8,
            WidgetId::Hunger => 9,
            WidgetId::Gauges => 10,
        }
    }

    /// The widget at a place.
    pub open spec fn at(place: int) -> WidgetId {
        if place == 0 {
            WidgetId::Puter
        } else if place == 1 {
            WidgetId::Toodle
        } else if place == 2 {
            WidgetId::Fwends
        } else if place == 3 {
            WidgetId::Twirl
        } else if place == 4 {
            WidgetId::Wavey
        } else if place == 5 {
            WidgetId::Fizzle
        } else if place == 6 {
            WidgetId::Day
        } else if place == 7 {
            WidgetId::Budgit
        } else if place == 8 {
            WidgetId::Stats
        } else if place == 9 {
            WidgetId::Hunger
        } else {
            WidgetId::Gauges
        }
    }

    pub fn from_index(index: usize) -> (r: WidgetId)
        requires
            index < WIDGET_COUNT,
        ensures
            r == WidgetId::at(index as int),
            r.place() == index,
    {
        match index {
            0 => WidgetId::Puter,
            1 => WidgetId::Toodle,
            2 => WidgetId::Fwends,
            3 => WidgetId::Twirl,
            4 => WidgetId::Wavey,
            5 => WidgetId::Fizzle,
            6 => WidgetId::Day,
            7 => WidgetId::Budgit,
            8 => WidgetId::Stats,
            9 => WidgetId::Hunger,
            _ => WidgetId::Gauges,
        }
    }
}

/// No two widgets share a place in the tables, and every place has a widget.
pub proof fn lemma_places(a: WidgetId, place: int)
    ensures
        WidgetId::at(a.place()) == a,
        0 <= place < WIDGET_COUNT ==> WidgetId::at(place).place() == place,
        0 <= a.place() < WIDGET_COUNT,
{
}

/// A rectangle that may reach past the canvas's left or top edge.
#[derive(Clone, Copy, PartialEq, Eq, Structural, Debug)]
pub struct Area {
    pub x: isize,
    pub y: isize,
    pub w: usize,
    pub h: usize,
}

impl Area {
    pub fn new(x: isize, y: isize, w: usize, h: usize) -> (r: Area)
        ensures
            r == (Area { x, y, w, h }),
    {
        Area { x, y, w, h }
    }

    /// Whether a point lies in the rectangle; its right and bottom edges do
    /// not belong to it.
    pub open spec fn has(self, x: int, y: int) -> bool {
        self.x <= x < self.x + self.w && self.y <= y < self.y + self.h
    }

    pub fn contains(&self, x: isize, y: isize) -> (r: bool)
        ensures
            r == self.has(x as int, y as int),
    {
        let (left, top, px, py) = (self.x as i128, self.y as i128, x as i128, y as i128);
        left <= px && px < left + self.w as i128 && top <= py && py < top + self.h as i128
    }
}

/// Where a widget sits: pixels from the window's left edge to its left edge,
/// and from the window's bottom up to its bottom edge.
pub open spec fn anchor(widget: WidgetId) -> (int, int) {
    match widget {
        WidgetId::Puter => (463, 39),
        WidgetId::Toodle => (322, 301),
        WidgetId::Fwends => (713, -10),
        WidgetId::Twirl => (587, 321),
        WidgetId::Wavey => (113, 31),
        WidgetId::Fizzle => (393, 31),
        WidgetId::Day => (330 - WEEK_COL_W, 197),
        WidgetId::Budgit => (322, 752),
        WidgetId::Stats => (322, 604),
        WidgetId::Hunger => (463, 3),
        WidgetId::Gauges => (335, 915),
    }
}

pub fn widget_xy(widget: WidgetId) -> (r: (isize, isize))
    ensures
        (r.0 as int, r.1 as int) == anchor(widget),
        0 <= r.0 <= 713,
        -10 <= r.1 <= 915,
{
    match widget {
        WidgetId::Puter => (463, 39),
        WidgetId::Toodle => (322, 301),
        WidgetId::Fwends => (713, -10),
        WidgetId::Twirl => (587, 321),
        WidgetId::Wavey => (113, 31),
        WidgetId::Fizzle => (393, 31),
        WidgetId::Day => (330 - WEEK_COL_W as isize, 197),
        WidgetId::Budgit => (322, 752),
        WidgetId::Stats => (322, 604),
        WidgetId::Hunger => (463, 3),
        WidgetId::Gauges => (335, 915),
    }
}

/// The desk's bottom edge above the window's; it hangs below it.
pub const DESK_Y: isize = -39;

/// Empty space above the tallest widget.
pub const TOP_PADDING: usize = 25;

/// How far below the window's top edge the fwends stand.
pub const FWENDS_TOP: usize = 10;

pub open spec fn at_least_zero(n: int) -> int {
    if n > 0 {
        n
    } else {
        0
    }
}

/// A widget's top left corner in a window of the given height.
pub open spec fn position_of(widget: WidgetId, height: int, screen_h: int) -> (int, int) {
    let (x, y) = anchor(widget);
    (
        x,
        if widget == WidgetId::Fwends {
            FWENDS_TOP as int
        } else {
            at_least_zero(screen_h - y - height)
        },
    )
}

/// Heights that pixel arithmetic can hold.
pub open spec fn measurable(heights: Seq<usize>) -> bool {
    forall|i: int| 0 <= i < heights.len() ==> #[trigger] heights[i] <= isize::MAX - 2000
}

pub fn widget_positions(heights: &[usize; WIDGET_COUNT], screen_h: usize) -> (r: Vec<
    (isize, isize),
>)
    requires
        measurable(heights@),
        screen_h <= isize::MAX - 2000,
    ensures
        r@.len() == WIDGET_COUNT,
        forall|i: int|
            0 <= i < WIDGET_COUNT ==> (
                (#[trigger] r@[i]).0 as int,
                r@[i].1 as int,
            ) == position_of(WidgetId::at(i), heights@[i] as int, screen_h as int),
{
    let mut positions: Vec<(isize, isize)> = Vec::new();
    let mut i: usize = 0;
    while i < WIDGET_COUNT
        invariant
            i <= WIDGET_COUNT,
            positions@.len() == i,
            measurable(heights@),
            screen_h <= isize::MAX - 2000,
            forall|j: int|
                0 <= j < i ==> (
                    (#[trigger] positions@[j]).0 as int,
                    positions@[j].1 as int,
                ) == position_of(WidgetId::at(j), heights@[j] as int, screen_h as int),
        decreases WIDGET_COUNT - i,
    {
        let widget = WidgetId::from_index(i);
        let (x, y) = widget_xy(widget);
        let h: isize = heights[i] as isize;
        let top: isize = screen_h as isize - y - h;
        if widget == WidgetId::Fwends {
            positions.push((x, FWENDS_TOP as isize));
        } else if top > 0 {
            positions.push((x, top));
        } else {
            positions.push((x, 0));
        }
        i += 1;
    }
    positions
}

/// How high a widget's foot is above the window's. The chat hangs from the top,
/// and takes its height from the window's foot on.
pub open spec fn foot(widget: WidgetId) -> int {
    if widget == WidgetId::Fwends {
        0
    } else {
        anchor(widget).1
    }
}

/// The room that the desk and the widgets at the first `n` places take.
pub open spec fn content_height(heights: Seq<usize>, desk_h: int, n: int) -> int
    decreases n,
{
    if n <= 0 {
        at_least_zero(desk_h + DESK_Y)
    } else {
        let before = content_height(heights, desk_h, n - 1);
        let own = at_least_zero(heights[n - 1] + foot(WidgetId::at(n - 1)));
        if own > before {
            own
        } else {
            before
        }
    }
}

/// The window height that shows the desk and every widget with some padding
/// above; the real height when that is larger.
pub open spec fn screen_height(heights: Seq<usize>, desk_h: int, min_h: int) -> int {
    let needed = content_height(heights, desk_h, WIDGET_COUNT as int) + TOP_PADDING;
    if needed > min_h {
        needed
    } else {
        min_h
    }
}

/// The height that the window has to have. The chat counts with its height from
/// the window's foot on.
pub fn required_screen_height(
    heights: &[usize; WIDGET_COUNT],
    desk_h: usize,
    min_h: usize,
) -> (r: usize)
    requires
        measurable(heights@),
        desk_h <= isize::MAX - 2000,
    ensures
        r == screen_height(heights@, desk_h as int, min_h as int),
{
    let bottom: isize = desk_h as isize + DESK_Y;
    let mut needed: usize = if bottom > 0 {
        bottom as usize
    } else {
        0
    };
    let mut i: usize = 0;
    while i < WIDGET_COUNT
        invariant
            i <= WIDGET_COUNT,
            measurable(heights@),
            desk_h <= isize::MAX - 2000,
            needed == content_height(heights@, desk_h as int, i as int),
            needed <= isize::MAX - 1000,
        decreases WIDGET_COUNT - i,
    {
        let widget = WidgetId::from_index(i);
        let (_, anchored) = widget_xy(widget);
        let y: isize = if widget == WidgetId::Fwends {
            0
        } else {
            anchored
        };
        let own: isize = heights[i] as isize + y;
        if own > 0 && own as usize > needed {
            needed = own as usize;
        }
        i += 1;
    }
    let padded: usize = needed + TOP_PADDING;
    if padded > min_h {
        padded
    } else {
        min_h
    }
}

/// In a window of the required height no bottom-anchored widget is pushed
/// down from its anchor, and each keeps the padding above it. The chat hangs
/// from the top, whatever the height.
pub proof fn lemma_required_height_shows_all(
    heights: Seq<usize>,
    desk_h: int,
    min_h: int,
    widget: WidgetId,
)
    requires
        heights.len() == WIDGET_COUNT,
    ensures
        ({
            let screen_h = screen_height(heights, desk_h, min_h);
            let height = heights[widget.place()] as int;
            let (left, top) = position_of(widget, height, screen_h);
            let (x, y) = anchor(widget);
            if widget == WidgetId::Fwends {
                top == FWENDS_TOP
            } else {
                left == x && top == screen_h - y - height && top >= TOP_PADDING
            }
        }),
{
    lemma_content_height(heights, desk_h, WIDGET_COUNT as int, widget.place());
    lemma_places(widget, widget.place());
}

proof fn lemma_content_height(heights: Seq<usize>, desk_h: int, n: int, i: int)
    requires
        0 <= i < n <= heights.len(),
    ensures
        content_height(heights, desk_h, n) >= heights[i] + foot(WidgetId::at(i)),
    decreases n,
{
    if i < n - 1 {
        lemma_content_height(heights, desk_h, n - 1, i);
    }
}

/// Moves a rectangle; answers whether it had been elsewhere.
pub fn move_rect(rect: &mut Area, x: isize, y: isize) -> (r: bool)
    ensures
        r == (old(rect).x != x || old(rect).y != y),
        *final(rect) == (Area { x, y, ..*old(rect) }),
{
    if rect.x == x && rect.y == y {
        return false;
    }
    rect.x = x;
    rect.y = y;
    true
}

/// Whether two rectangles share a point.
pub open spec fn overlap(a: Area, b: Area) -> bool {
    &&& a.x < b.x + b.w
    &&& b.x < a.x + a.w
    &&& a.y < b.y + b.h
    &&& b.y < a.y + a.h
}

pub fn rects_intersect(a: Area, b: Area) -> (r: bool)
    ensures
        r == overlap(a, b),
{
    let (ax, ay, bx, by) = (a.x as i128, a.y as i128, b.x as i128, b.y as i128);
    ax < bx + b.w as i128 && bx < ax + a.w as i128 && ay < by + b.h as i128 && by < ay
        + a.h as i128
}

/// Rectangles with something in them intersect exactly when some point lies in
/// both; which comes first does not matter.
pub proof fn lemma_intersect_is_common_point(a: Area, b: Area)
    requires
        a.w > 0,
        a.h > 0,
        b.w > 0,
        b.h > 0,
    ensures
        overlap(a, b) == overlap(b, a),
        overlap(a, b) <==> exists|x: int, y: int| #[trigger] a.has(x, y) && b.has(x, y),
{
    if overlap(a, b) {
        let x = if a.x > b.x {
            a.x as int
        } else {
            b.x as int
        };
        let y = if a.y > b.y {
            a.y as int
        } else {
            b.y as int
        };
        assert(a.has(x, y) && b.has(x, y));
    }
}

/// The column of the desk's picture that a window column shows: the left and
/// right halves keep their place at the edges, and the middle column fills
/// what lies between.
pub open spec fn desk_column(x: int, target_w: int, source_w: int) -> int {
    if source_w <= 1 || target_w <= source_w {
        let last = at_least_zero(source_w - 1);
        if x < last {
            x
        } else {
            last
        }
    } else {
        let middle = source_w / 2;
        let right_w = source_w - middle - 1;
        if x < middle {
            x
        } else if x < target_w - right_w {
            middle
        } else {
            let into = x - (target_w - right_w);
            let last = at_least_zero(right_w - 1);
            middle + 1 + if into < last {
                into
            } else {
                last
            }
        }
    }
}

pub fn stretched_desk_source_x(x: usize, target_w: usize, source_w: usize) -> (r: usize)
    ensures
        r == desk_column(x as int, target_w as int, source_w as int),
{
    if source_w <= 1 || target_w <= source_w {
        let last: usize = if source_w > 0 {
            source_w - 1
        } else {
            0
        };
        return if x < last {
            x
        } else {
            last
        };
    }
    let middle: usize = source_w / 2;
    let right_w: usize = source_w - middle - 1;
    let edge: usize = target_w - right_w;
    if x < middle {
        x
    } else if x < edge {
        middle
    } else {
        let into: usize = x - edge;
        let last: usize = if right_w > 0 {
            right_w - 1
        } else {
            0
        };
        if into < last {
            middle + 1 + into
        } else {
            middle + 1 + last
        }
    }
}

/// A stretched desk is read from left to right without going back, only from
/// columns that it has, and its outer columns stand at the window's edges.
pub proof fn lemma_desk_columns(x: int, y: int, target_w: int, source_w: int)
    requires
        0 <= x <= y < target_w,
        0 <= source_w,
    ensures
        0 <= desk_column(x, target_w, source_w),
        0 < source_w ==> desk_column(x, target_w, source_w) < source_w,
        desk_column(x, target_w, source_w) <= desk_column(y, target_w, source_w),
        0 < source_w <= target_w ==> desk_column(target_w - 1, target_w, source_w) == source_w - 1,
        desk_column(0, target_w, source_w) == 0,
{
}

/// Where the widgets stand: how far their left edges are from the desk's, and their
/// bottoms from the screen's.
pub proof fn lemma_anchors_are(widget: WidgetId)
    ensures
        anchor(widget) == (match widget {
            WidgetId::Puter => (463int, 39int),
            WidgetId::Toodle => (322, 301),
            WidgetId::Fwends => (713, -10),
            WidgetId::Twirl => (587, 321),
            WidgetId::Wavey => (113, 31),
            WidgetId::Fizzle => (393, 31),
            WidgetId::Day => (307, 197),
            WidgetId::Budgit => (322, 752),
            WidgetId::Stats => (322, 604),
            WidgetId::Hunger => (463, 3),
            WidgetId::Gauges => (335, 915),
        }),
{
}

/// A widget stands by its bottom, counted from the screen's, as far as the screen
/// is high enough; the chat hangs ten rows below the top.
pub proof fn lemma_positions_are(widget: WidgetId, height: int, screen_h: int)
    ensures
        position_of(widget, height, screen_h).0 == anchor(widget).0,
        widget == WidgetId::Fwends ==> position_of(widget, height, screen_h).1 == 10,
        widget != WidgetId::Fwends && height + anchor(widget).1 <= screen_h ==> position_of(
            widget,
            height,
            screen_h,
        ).1 + height + anchor(widget).1 == screen_h,
        widget != WidgetId::Fwends && height + anchor(widget).1 > screen_h ==> position_of(
            widget,
            height,
            screen_h,
        ).1 == 0,
{
}

/// The content is as high as the highest of the desk and the widgets above it, and
/// no higher. The screen has twenty-five rows above that, unless more is asked for.
pub proof fn lemma_content_height_is(heights: Seq<usize>, desk_h: int, n: int, i: int, min_h: int)
    requires
        0 <= i < n <= 11,
        heights.len() == 11,
    ensures
        ({
            let reach = |k: int|
                heights[k] + if WidgetId::at(k) == WidgetId::Fwends {
                    0
                } else {
                    anchor(WidgetId::at(k)).1
                };
            let high = content_height(heights, desk_h, n);
            &&& high >= desk_h - 39
            &&& high >= 0
            &&& high >= reach(i)
            &&& high == 0 || high == desk_h - 39 || exists|k: int|
                0 <= k < n && high == #[trigger] heights[k] + foot(WidgetId::at(k))
        }),
        ({
            let needed = content_height(heights, desk_h, 11) + 25;
            let screen_h = screen_height(heights, desk_h, min_h);
            screen_h >= needed && screen_h >= min_h && (screen_h == needed || screen_h == min_h)
        }),
    decreases n,
{
    if n > 1 {
        lemma_content_height_is(
            heights,
            desk_h,
            n - 1,
            if i < n - 1 {
                i
            } else {
                0
            },
            min_h,
        );
    } else {
        assert(content_height(heights, desk_h, 0) == at_least_zero(desk_h - 39));
    }
    let high = content_height(heights, desk_h, n);
    let own = heights[n - 1] + foot(WidgetId::at(n - 1));
    if high != content_height(heights, desk_h, n - 1) && high != 0 {
        assert(high == heights[n - 1] + foot(WidgetId::at(n - 1)));
    }
}

/// A wider desk repeats only its middle column: what is left of it stays where it
/// is, and what is right of it keeps its distance from the right edge.
pub proof fn lemma_desk_stretches(x: int, target_w: int, source_w: int)
    requires
        1 < source_w < target_w,
        0 <= x < target_w,
    ensures
        ({
            let middle = source_w / 2;
            let right = source_w - middle - 1;
            &&& x < middle ==> desk_column(x, target_w, source_w) == x
            &&& middle <= x < target_w - right ==> desk_column(x, target_w, source_w) == middle
            &&& x >= target_w - right ==> source_w - desk_column(x, target_w, source_w) == target_w
                - x
        }),
{
}

/// A point is in an area between its edges, the left and the upper included.
pub proof fn lemma_area_has(a: Area, x: int, y: int)
    ensures
        a.has(x, y) <==> 0 <= x - a.x < a.w && 0 <= y - a.y < a.h,
{
}

} // verus!
