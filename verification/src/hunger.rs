//! A bar of apples that empties towards the next meal and is refilled by
//! eating. Instants are milliseconds since the epoch.
use vstd::prelude::*;

use crate::chars::{append_chars, decimal, decimal_chars, from_chars, same_text};
use crate::fizzle::Size;
use crate::graphics::{span, Rect};
use crate::localtime::Tm;
use crate::palette_color::{CREAM, CRIMSON};
use crate::scene::{shape_views, Shape, ShapeView};

verus! {

/// Apples in the bar; each has four bites.
pub const APPLES: usize = 5;

pub const BAR_TEXT_GAP: usize = 5;

/// Seconds between looks at the clock.
pub const REFRESH_SECS: u64 = 1;

/// The eating window in minutes from midnight, and the meals spread over it.
pub const WINDOW_START_MIN: i64 = 480;

pub const WINDOW_END_MIN: i64 = 1260;

pub const MEALS_PER_DAY: usize = 5;

/// Instants that arithmetic can hold.
pub open spec fn instant(t: int) -> bool {
    -0x1000_0000_0000_0000 <= t <= 0x1000_0000_0000_0000
}

/// A meal's minute of the day.
pub open spec fn meal_minute(i: int) -> int {
    WINDOW_START_MIN + i * 195
}

/// The first meal opens the window and the last one closes it.
pub proof fn lemma_meals_span_window()
    ensures
        meal_minute(0) == WINDOW_START_MIN,
        meal_minute(MEALS_PER_DAY - 1) == WINDOW_END_MIN,
{
}

/// A wall clock time of a day of a month, for the clock to turn into an
/// instant; a day past the month's end runs into the next.
#[derive(Clone, Copy, PartialEq, Eq, Structural, Debug)]
pub struct CivilTime {
    pub year: i32,
    pub mon: i32,
    pub mday: i32,
    pub hour: i32,
    pub min: i32,
}

/// The wall clock time of a meal of the day a number of days from today.
pub fn meal_time(tm: &Tm, day_offset: i32, i: usize) -> (r: CivilTime)
    requires
        i < MEALS_PER_DAY,
        tm.tm_year <= i32::MAX - 1900,
        i32::MIN <= tm.tm_mday + day_offset <= i32::MAX,
    ensures
        r.year == tm.tm_year + 1900,
        r.mon == tm.tm_mon,
        r.mday == tm.tm_mday + day_offset,
        r.hour == meal_minute(i as int) / 60,
        r.min == meal_minute(i as int) % 60,
{
    let minutes: i32 = 480 + i as i32 * 195;
    CivilTime {
        year: tm.tm_year + 1900,
        mon: tm.tm_mon,
        mday: tm.tm_mday + day_offset,
        hour: minutes / 60,
        min: minutes % 60,
    }
}

/// A meal's instant when the wall clock cannot be had: by days of UTC from the
/// current one.
pub open spec fn utc_meal(now_secs: int, day_offset: int, i: int) -> int {
    let day = if now_secs >= 0 {
        now_secs / 86400
    } else {
        -((-now_secs) / 86400)
    };
    (day * 86400 + day_offset * 86400 + meal_minute(i) * 60) * 1000
}

pub fn fallback_meal(now_secs: i64, day_offset: i64, i: usize) -> (r: i64)
    requires
        i < MEALS_PER_DAY,
        -0x4_0000_0000_0000 <= now_secs <= 0x4_0000_0000_0000,
        -2 <= day_offset <= 2,
    ensures
        r == utc_meal(now_secs as int, day_offset as int, i as int),
{
    let day: i64 = if now_secs >= 0 {
        now_secs / 86400
    } else {
        -((-now_secs) / 86400)
    };
    (day * 86400 + day_offset * 86400 + (480 + i as i64 * 195) * 60) * 1000
}

/// The first meal after an instant; the instant itself when there is none.
pub open spec fn meal_after(meals: Seq<i64>, t: int) -> int
    decreases meals.len(),
{
    if meals.len() == 0 {
        t
    } else {
        let before = meal_after(meals.drop_last(), t);
        if before > t {
            before
        } else if meals.last() > t {
            meals.last() as int
        } else {
            t
        }
    }
}

/// The last meal up to an instant; the instant itself when there is none.
pub open spec fn meal_before(meals: Seq<i64>, t: int) -> int
    decreases meals.len(),
{
    if meals.len() == 0 {
        t
    } else if meals.last() <= t {
        meals.last() as int
    } else {
        meal_before(meals.drop_last(), t)
    }
}

pub fn next_meal(meals: &Vec<i64>, t: i64) -> (r: i64)
    ensures
        r == meal_after(meals@, t as int),
        r >= t,
{
    let mut found: i64 = t;
    let mut i: usize = 0;
    assert(meals@.take(0) =~= Seq::empty());
    while i < meals.len()
        invariant
            i <= meals@.len(),
            found >= t,
            found == meal_after(meals@.take(i as int), t as int),
        decreases meals@.len() - i,
    {
        assert(meals@.take(i + 1).drop_last() =~= meals@.take(i as int));
        if found <= t && meals[i] > t {
            found = meals[i];
        }
        i += 1;
    }
    assert(meals@.take(meals@.len() as int) =~= meals@);
    found
}

pub fn prev_meal(meals: &Vec<i64>, t: i64) -> (r: i64)
    ensures
        r == meal_before(meals@, t as int),
        r <= t,
{
    let mut n: usize = meals.len();
    assert(meals@.take(n as int) =~= meals@);
    while n > 0
        invariant
            n <= meals@.len(),
            meal_before(meals@, t as int) == meal_before(meals@.take(n as int), t as int),
        decreases n,
    {
        if meals[n - 1] <= t {
            return meals[n - 1];
        }
        assert(meals@.take(n as int).drop_last() =~= meals@.take(n - 1));
        n -= 1;
    }
    t
}

/// The meals around an instant: the one before is no later, the one after no
/// earlier, and with meals on both sides of it they are meals of the list.
pub proof fn lemma_meals_bracket(meals: Seq<i64>, t: int)
    ensures
        meal_before(meals, t) <= t <= meal_after(meals, t),
        (exists|i: int| 0 <= i < meals.len() && #[trigger] meals[i] > t) ==> meal_after(meals, t)
            > t && exists|i: int| 0 <= i < meals.len() && #[trigger] meals[i] == meal_after(meals, t),
        (exists|i: int| 0 <= i < meals.len() && #[trigger] meals[i] <= t) ==> exists|i: int|
            0 <= i < meals.len() && #[trigger] meals[i] == meal_before(meals, t),
    decreases meals.len(),
{
    if meals.len() > 0 {
        let front = meals.drop_last();
        let n = meals.len() - 1;
        lemma_meals_bracket(front, t);
        assert(meals[n] == meals.last());
        if exists|i: int| 0 <= i < meals.len() && #[trigger] meals[i] > t {
            let i = choose|i: int| 0 <= i < meals.len() && #[trigger] meals[i] > t;
            if i < n {
                assert(front[i] > t);
            }
            if meal_after(front, t) > t {
                if exists|k: int| 0 <= k < front.len() && #[trigger] front[k] > t {
                    let k = choose|k: int|
                        0 <= k < front.len() && #[trigger] front[k] == meal_after(front, t);
                    assert(meals[k] == meal_after(front, t));
                } else {
                    lemma_none_after(front, t);
                }
            }
        }
        if exists|i: int| 0 <= i < meals.len() && #[trigger] meals[i] <= t {
            let i = choose|i: int| 0 <= i < meals.len() && #[trigger] meals[i] <= t;
            if i < n {
                assert(front[i] <= t);
                if meals.last() > t {
                    let k = choose|k: int|
                        0 <= k < front.len() && #[trigger] front[k] == meal_before(front, t);
                    assert(meals[k] == meal_before(front, t));
                }
            }
        }
    }
}

/// On an ascending list the meals around an instant are neighbours: no meal up
/// to the instant is later than the one before it, none after it is earlier than
/// the one after it, and the one after it ends its own wait.
pub proof fn lemma_meals_adjacent(meals: Seq<i64>, t: int)
    requires
        forall|i: int, j: int| 0 <= i <= j < meals.len() ==> meals[i] <= meals[j],
    ensures
        forall|i: int|
            0 <= i < meals.len() && #[trigger] meals[i] <= t ==> meals[i] <= meal_before(meals, t),
        forall|i: int|
            0 <= i < meals.len() && #[trigger] meals[i] > t ==> meal_after(meals, t) <= meals[i],
        forall|i: int|
            0 <= i < meals.len() ==> !(meal_before(meals, t) < #[trigger] meals[i] < meal_after(
                meals,
                t,
            )),
        meal_after(meals, t) > t ==> meal_before(meals, meal_after(meals, t)) == meal_after(
            meals,
            t,
        ),
    decreases meals.len(),
{
    if meals.len() > 0 {
        let front = meals.drop_last();
        let n = meals.len() - 1;
        assert forall|i: int, j: int| 0 <= i <= j < front.len() implies front[i] <= front[j] by {
            assert(front[i] == meals[i] && front[j] == meals[j]);
        }
        lemma_meals_adjacent(front, t);
        lemma_meals_bracket(front, t);
        lemma_meals_bracket(meals, t);
        assert(meals.last() == meals[n]);
        assert forall|i: int| 0 <= i < meals.len() && #[trigger] meals[i] <= t implies meals[i]
            <= meal_before(meals, t) by {
            if i < n {
                assert(front[i] == meals[i]);
            }
        }
        assert forall|i: int| 0 <= i < meals.len() && #[trigger] meals[i] > t implies meal_after(
            meals,
            t,
        ) <= meals[i] by {
            if i < n {
                assert(front[i] == meals[i]);
            } else if meal_after(front, t) > t {
                if exists|k: int| 0 <= k < front.len() && #[trigger] front[k] > t {
                    let k = choose|k: int|
                        0 <= k < front.len() && #[trigger] front[k] == meal_after(front, t);
                    assert(meals[k] <= meals[n]);
                } else {
                    lemma_none_after(front, t);
                }
            }
        }
        let next = meal_after(meals, t);
        if next > t {
            if !(exists|i: int| 0 <= i < meals.len() && #[trigger] meals[i] > t) {
                lemma_none_after(meals, t);
            }
            let k = choose|k: int| 0 <= k < meals.len() && #[trigger] meals[k] == next;
            lemma_meal_is_its_own(meals, k);
        }
    }
}

proof fn lemma_meal_is_its_own(meals: Seq<i64>, k: int)
    requires
        forall|i: int, j: int| 0 <= i <= j < meals.len() ==> meals[i] <= meals[j],
        0 <= k < meals.len(),
    ensures
        meal_before(meals, meals[k] as int) == meals[k],
    decreases meals.len(),
{
    let n = meals.len() - 1;
    assert(meals[k] <= meals[n]);
    if meals.last() > meals[k] {
        let front = meals.drop_last();
        assert forall|i: int, j: int| 0 <= i <= j < front.len() implies front[i] <= front[j] by {
            assert(front[i] == meals[i] && front[j] == meals[j]);
        }
        assert(front[k] == meals[k]);
        lemma_meal_is_its_own(front, k);
    }
}

proof fn lemma_none_after(meals: Seq<i64>, t: int)
    requires
        !exists|k: int| 0 <= k < meals.len() && #[trigger] meals[k] > t,
    ensures
        meal_after(meals, t) == t,
    decreases meals.len(),
{
    if meals.len() > 0 {
        let front = meals.drop_last();
        assert(meals[meals.len() - 1] <= t);
        assert forall|k: int| 0 <= k < front.len() implies #[trigger] front[k] <= t by {
            assert(meals[k] <= t);
        }
        lemma_none_after(front, t);
    }
}

/// An instant up to which every meal is eaten; never in the future of when it
/// was taken.
#[derive(Clone, Copy, PartialEq, Eq, Structural, Debug)]
pub struct EatenThrough {
    pub at: i64,
}

impl EatenThrough {
    /// The last meal up to now.
    pub fn at_or_before(meals: &Vec<i64>, now: i64) -> (r: Self)
        ensures
            r.at == meal_before(meals@, now as int),
            r.at <= now,
    {
        EatenThrough { at: prev_meal(meals, now) }
    }

    /// A kept instant, unless it lies in the future.
    pub fn new(value: i64, now: i64) -> (r: Option<Self>)
        ensures
            r == (if value <= now {
                Some(EatenThrough { at: value })
            } else {
                None::<EatenThrough>
            }),
    {
        if value <= now {
            Some(EatenThrough { at: value })
        } else {
            None
        }
    }

    pub fn get(self) -> (r: i64)
        ensures
            r == self.at,
    {
        self.at
    }
}

/// The meal that the bar counts down to, and how long that takes; at least a
/// second.
pub open spec fn window(meals: Seq<i64>, eaten: int) -> (int, int) {
    let target = meal_after(meals, eaten);
    (
        target,
        if target - eaten > 1000 {
            target - eaten
        } else {
            1000
        },
    )
}

pub fn meal_window(meals: &Vec<i64>, eaten: EatenThrough) -> (r: (i64, i64))
    requires
        instant(eaten.at as int),
        forall|i: int| 0 <= i < meals@.len() ==> instant(#[trigger] meals@[i] as int),
    ensures
        (r.0 as int, r.1 as int) == window(meals@, eaten.at as int),
        r.1 >= 1000,
        instant(r.0 as int),
{
    let target: i64 = next_meal(meals, eaten.at);
    proof {
        lemma_meals_bracket(meals@, eaten.at as int);
        lemma_after_instant(meals@, eaten.at as int);
    }
    let span: i64 = target - eaten.at;
    (
        target,
        if span > 1000 {
            span
        } else {
            1000
        },
    )
}

proof fn lemma_after_instant(meals: Seq<i64>, t: int)
    requires
        instant(t),
        forall|i: int| 0 <= i < meals.len() ==> instant(#[trigger] meals[i] as int),
    ensures
        instant(meal_after(meals, t)),
    decreases meals.len(),
{
    if meals.len() > 0 {
        let front = meals.drop_last();
        assert(instant(meals[meals.len() - 1] as int));
        assert forall|i: int| 0 <= i < front.len() implies instant(#[trigger] front[i] as int) by {
            assert(instant(meals[i] as int));
        }
        lemma_after_instant(front, t);
    }
}

/// Two digits of a number below a hundred.
pub open spec fn two_digits(n: int) -> Seq<char> {
    if n < 10 {
        seq!['0'] + decimal(n as nat)
    } else {
        decimal(n as nat)
    }
}

/// A time as hours, minutes and seconds, without hours when there are none.
pub open spec fn countdown(ms: int) -> Seq<char> {
    let total = if ms > 0 {
        ms / 1000
    } else {
        0
    };
    let h = total / 3600;
    let m = (total % 3600) / 60;
    let s = total % 60;
    if h > 0 {
        decimal(h as nat) + seq![':'] + two_digits(m) + seq![':'] + two_digits(s)
    } else {
        decimal(m as nat) + seq![':'] + two_digits(s)
    }
}

fn append_two_digits(out: &mut Vec<char>, n: u64)
    requires
        n < 100,
    ensures
        final(out)@ == old(out)@ + two_digits(n as int),
{
    let ghost start = out@;
    if n < 10 {
        out.push('0');
    }
    let digits = decimal_chars(n);
    append_chars(out, &digits);
    assert(out@ =~= start + two_digits(n as int));
}

pub fn fmt_countdown(ms: i64) -> (r: String)
    ensures
        r@ == countdown(ms as int),
{
    let total: u64 = if ms > 0 {
        (ms / 1000) as u64
    } else {
        0
    };
    let h: u64 = total / 3600;
    let m: u64 = (total % 3600) / 60;
    let s: u64 = total % 60;
    let mut out: Vec<char> = Vec::new();
    if h > 0 {
        let hours = decimal_chars(h);
        append_chars(&mut out, &hours);
        out.push(':');
        append_two_digits(&mut out, m);
    } else {
        let minutes = decimal_chars(m);
        append_chars(&mut out, &minutes);
    }
    out.push(':');
    append_two_digits(&mut out, s);
    assert(out@ =~= countdown(ms as int));
    from_chars(&out)
}

/// What the bar shows: bites left, and the time left or a call to eat.
pub struct HungerView {
    pub fill: usize,
    pub label: String,
}

/// The bites left of a countdown: any time left keeps one.
pub open spec fn bites(target: int, span: int, now: int) -> int {
    let remaining = target - now;
    if remaining <= 0 {
        0
    } else if remaining >= span {
        20
    } else {
        (remaining * 20 + span - 1) / span
    }
}

pub open spec fn bar_label(target: int, now: int) -> Seq<char> {
    if target - now <= 0 {
        "EAT!"@
    } else {
        countdown(target - now)
    }
}

pub fn render_view(target: i64, span: i64, now: i64) -> (r: HungerView)
    requires
        instant(target as int),
        instant(now as int),
        span >= 1,
    ensures
        r.fill == bites(target as int, span as int, now as int),
        r.fill <= APPLES * 4,
        r.label@ == bar_label(target as int, now as int),
{
    let remaining: i64 = target - now;
    if remaining <= 0 {
        return HungerView { fill: 0, label: "EAT!".to_owned() };
    }
    let fill: usize = if remaining >= span {
        20
    } else {
        let part: i128 = (remaining as i128 * 20 + span as i128 - 1) / span as i128;
        assert(0 <= (remaining * 20 + span - 1) / span as int <= 20) by (nonlinear_arith)
            requires
                0 < remaining < span,
        ;
        part as usize
    };
    HungerView { fill, label: fmt_countdown(remaining) }
}

/// The bar is full right after a meal, empty when the next one is due, never
/// empty before that, and never fills up by itself.
pub proof fn lemma_bar_empties(target: int, span: int, now: int, later: int)
    requires
        span >= 1,
        now <= later,
    ensures
        now <= target - span ==> bites(target, span, now) == 20,
        bites(target, span, now) == 0 <==> now >= target,
        bites(target, span, later) <= bites(target, span, now),
{
    let (a, b) = (target - now, target - later);
    assert(0 < a < span ==> 1 <= (a * 20 + span - 1) / span <= 20) by (nonlinear_arith)
        requires
            span >= 1,
    ;
    assert(0 < b < span ==> 1 <= (b * 20 + span - 1) / span <= 20) by (nonlinear_arith)
        requires
            span >= 1,
    ;
    assert(0 < b <= a < span ==> (b * 20 + span - 1) / span <= (a * 20 + span - 1) / span)
        by (nonlinear_arith)
        requires
            span >= 1,
    ;
}

pub struct Hunger {
    pub apple: Size,
    pub cell_h: usize,
    pub target: i64,
    pub span: i64,
    pub view: HungerView,
}

impl Hunger {
    /// A countdown whose instants and picture sizes arithmetic can hold.
    pub open spec fn wf(&self) -> bool {
        &&& instant(self.target as int)
        &&& self.span >= 1
        &&& self.apple.w <= span()
        &&& self.apple.h <= span()
        &&& self.cell_h <= span()
        &&& self.view.fill <= 20
    }

    /// The bar as it starts.
    pub open spec fn starts(
        apple: Size,
        cell_h: usize,
        kept: Option<i64>,
        meals: &Vec<i64>,
        now: i64,
        r: Self,
    ) -> bool {
        &&& r.apple == apple
        &&& r.cell_h == cell_h
        &&& ({
            let eaten = match kept {
                Some(at) => if at <= now {
                    at as int
                } else {
                    meal_before(meals@, now as int)
                },
                None => meal_before(meals@, now as int),
            };
            &&& (r.target as int, r.span as int) == window(meals@, eaten)
            &&& r.view.fill == bites(r.target as int, r.span as int, now as int)
            &&& r.view.label@ == bar_label(r.target as int, now as int)
        })
    }

    /// Starts from a kept instant up to which meals are eaten; one that lies
    /// in the future or is missing counts as everything eaten so far.
    pub fn load(
        apple: Size,
        cell_h: usize,
        kept: Option<i64>,
        meals: &Vec<i64>,
        now: i64,
    ) -> (r: Self)
        requires
            apple.w <= span(),
            apple.h <= span(),
            cell_h <= span(),
            instant(now as int),
            kept matches Some(at) ==> instant(at as int),
            forall|i: int| 0 <= i < meals@.len() ==> instant(#[trigger] meals@[i] as int),
        ensures
            r.wf(),
            Self::starts(apple, cell_h, kept, meals, now, r),
    {
        let valid = match kept {
            Some(at) => EatenThrough::new(at, now),
            None => None,
        };
        let eaten = match valid {
            Some(eaten) => eaten,
            None => EatenThrough::at_or_before(meals, now),
        };
        proof {
            lemma_before_instant(meals@, now as int);
        }
        let (target, span) = meal_window(meals, eaten);
        let view = render_view(target, span, now);
        Hunger { apple, cell_h, target, span, view }
    }

    pub fn width(&self) -> (r: usize)
        requires
            self.wf(),
        ensures
            r == APPLES * self.apple.w,
    {
        APPLES * self.apple.w
    }

    pub fn height(&self) -> (r: usize)
        requires
            self.wf(),
        ensures
            r == self.apple.h + BAR_TEXT_GAP + self.cell_h,
    {
        self.apple.h + BAR_TEXT_GAP + self.cell_h
    }

    /// Whether the meal is due and the bar waits to be clicked.
    pub fn is_empty(&self) -> (r: bool)
        ensures
            r == (self.view.fill == 0),
    {
        self.view.fill == 0
    }

    /// What another instant leads to.
    pub open spec fn time_leads_to(&self, now: i64, after: &Self, r: bool) -> bool {
        &&& after.target == self.target
        &&& after.span == self.span
        &&& after.apple == self.apple
        &&& after.cell_h == self.cell_h
        &&& after.view.fill == bites(
            self.target as int,
            self.span as int,
            now as int,
        )
        &&& after.view.label@ == bar_label(self.target as int, now as int)
        &&& r == (after.view.fill != self.view.fill || after.view.label@ != self.view.label@)
    }

    /// Shows another instant; answers whether the bar changed.
    pub fn update(&mut self, now: i64) -> (r: bool)
        requires
            old(self).wf(),
            instant(now as int),
        ensures
            final(self).wf(),
            old(self).time_leads_to(now, final(self), r),
    {
        let view = render_view(self.target, self.span, now);
        let same = view.fill == self.view.fill && same_text(
            view.label.as_str(),
            self.view.label.as_str(),
        );
        self.view = view;
        !same
    }

    /// What a press eats.
    pub open spec fn press_eats(
        &self,
        meals: &Vec<i64>,
        now: i64,
        r: Option<EatenThrough>,
    ) -> bool {
        match r {
            Some(eaten) => self.view.fill == 0 && eaten.at == meal_before(meals@, now as int),
            None => self.view.fill != 0,
        }
    }

    /// What a click eats: every meal up to now, but only when one is due.
    pub fn click(&self, meals: &Vec<i64>, now: i64) -> (r: Option<EatenThrough>)
        ensures
            self.press_eats(meals, now, r),
    {
        if self.view.fill != 0 {
            return None;
        }
        Some(EatenThrough::at_or_before(meals, now))
    }

    /// What eating leads to.
    pub open spec fn eating_leads_to(
        &self,
        eaten: EatenThrough,
        meals: &Vec<i64>,
        now: i64,
        after: &Self,
    ) -> bool {
        &&& after.apple == self.apple
        &&& after.cell_h == self.cell_h
        &&& (after.target as int, after.span as int) == window(
            meals@,
            eaten.at as int,
        )
        &&& after.view.fill == bites(
            after.target as int,
            after.span as int,
            now as int,
        )
        &&& after.view.label@ == bar_label(after.target as int, now as int)
    }

    /// Refills the bar once what was eaten has been kept.
    pub fn eat(&mut self, eaten: EatenThrough, meals: &Vec<i64>, now: i64)
        requires
            old(self).wf(),
            instant(now as int),
            instant(eaten.at as int),
            forall|i: int| 0 <= i < meals@.len() ==> instant(#[trigger] meals@[i] as int),
        ensures
            final(self).wf(),
            old(self).eating_leads_to(eaten, meals, now, final(self)),
    {
        let (target, span) = meal_window(meals, eaten);
        self.target = target;
        self.span = span;
        self.view = render_view(target, span, now);
    }

    /// The bites of an apple; the right ones are eaten first.
    pub open spec fn level(fill: int, slot: int) -> int {
        if fill - slot * 4 >= 4 {
            4
        } else if fill - slot * 4 <= 0 {
            0
        } else {
            fill - slot * 4
        }
    }

    /// The first apples of the bar; an eaten one is empty space.
    pub open spec fn apples(&self, n: int) -> Seq<ShapeView>
        decreases n,
    {
        if n <= 0 {
            Seq::empty()
        } else {
            let before = self.apples(n - 1);
            let level = Hunger::level(self.view.fill as int, n - 1);
            if level == 0 {
                before
            } else {
                before.push(
                    ShapeView::Picture {
                        sprite: 4 - level,
                        src: Rect { x: 0, y: 0, w: self.apple.w, h: self.apple.h },
                        x: (n - 1) * self.apple.w,
                        y: 0,
                    },
                )
            }
        }
    }

    /// The bar with its label below, in red when a meal is due.
    pub fn shapes(&self) -> (r: Vec<Shape>)
        requires
            self.wf(),
        ensures
            shape_views(r@) == self.apples(APPLES as int).push(
                ShapeView::Centered {
                    font: 0,
                    text: self.view.label@,
                    left: 0,
                    width: APPLES * self.apple.w,
                    y: self.apple.h + BAR_TEXT_GAP,
                    color: if self.view.fill == 0 {
                        CRIMSON
                    } else {
                        CREAM
                    },
                },
            ),
    {
        let mut out: Vec<Shape> = Vec::new();
        let mut slot: usize = 0;
        assert(shape_views(out@) =~= self.apples(0));
        while slot < APPLES
            invariant
                slot <= APPLES,
                self.wf(),
                shape_views(out@) =~= self.apples(slot as int),
            decreases APPLES - slot,
        {
            let level: usize = if self.view.fill >= slot * 4 + 4 {
                4
            } else if self.view.fill <= slot * 4 {
                0
            } else {
                self.view.fill - slot * 4
            };
            if level > 0 {
                let ghost before = out@;
                assert(slot * self.apple.w <= 5 * span()) by (nonlinear_arith)
                    requires
                        slot <= 5,
                        self.apple.w <= span(),
                ;
                out.push(
                    Shape::Picture {
                        sprite: 4 - level,
                        src: Rect::new(0, 0, self.apple.w, self.apple.h),
                        x: (slot * self.apple.w) as isize,
                        y: 0,
                    },
                );
                assert(shape_views(out@) =~= shape_views(before).push(out@.last()@));
            }
            slot += 1;
        }
        let ghost before = out@;
        out.push(
            Shape::Centered {
                font: 0,
                text: self.view.label.as_str().to_owned(),
                left: 0,
                width: self.width(),
                y: (self.apple.h + BAR_TEXT_GAP) as isize,
                color: if self.view.fill == 0 {
                    CRIMSON
                } else {
                    CREAM
                },
            },
        );
        assert(shape_views(out@) =~= shape_views(before).push(out@.last()@));
        out
    }
}

proof fn lemma_before_instant(meals: Seq<i64>, t: int)
    requires
        instant(t),
        forall|i: int| 0 <= i < meals.len() ==> instant(#[trigger] meals[i] as int),
    ensures
        instant(meal_before(meals, t)),
    decreases meals.len(),
{
    if meals.len() > 0 {
        let front = meals.drop_last();
        assert(instant(meals[meals.len() - 1] as int));
        assert forall|i: int| 0 <= i < front.len() implies instant(#[trigger] front[i] as int) by {
            assert(instant(meals[i] as int));
        }
        lemma_before_instant(front, t);
    }
}

/// The meals of a day are three and a quarter hours apart from eight in the
/// morning, and those of the next day a day later. By the clock of Greenwich a day
/// begins where the seconds are a multiple of a day's.
pub proof fn lemma_meal_times(now_secs: int, day_offset: int, i: int)
    ensures
        meal_minute(0) == 8 * 60,
        meal_minute(i + 1) == meal_minute(i) + 195,
        utc_meal(now_secs, day_offset, i + 1) == utc_meal(now_secs, day_offset, i) + 195 * 60_000,
        utc_meal(now_secs, day_offset + 1, i) == utc_meal(now_secs, day_offset, i) + 86_400_000,
        now_secs >= 0 ==> utc_meal(now_secs, 0, 0) - 8 * 3_600_000 <= now_secs * 1000 < utc_meal(
            now_secs,
            1,
            0,
        ) - 8 * 3_600_000,
        now_secs >= 0 ==> (utc_meal(now_secs, 0, 0) - 8 * 3_600_000) % 86_400_000 == 0,
{
    let day = if now_secs >= 0 {
        now_secs / 86400
    } else {
        -((-now_secs) / 86400)
    };
    assert(utc_meal(now_secs, 0, 0) == day * 86_400_000 + 8 * 3_600_000);
}

/// A span of waiting ends at the first meal after what was eaten last, and lasts at
/// least a second.
pub proof fn lemma_window_is(meals: Seq<i64>, eaten: int)
    ensures
        window(meals, eaten).0 == meal_after(meals, eaten),
        window(meals, eaten).1 >= 1000,
        meal_after(meals, eaten) - eaten >= 1000 ==> window(meals, eaten).1 == meal_after(
            meals,
            eaten,
        ) - eaten,
        meal_after(meals, eaten) - eaten < 1000 ==> window(meals, eaten).1 == 1000,
{
}

/// A number below a hundred in two digits.
pub proof fn lemma_two_digits_are(n: int)
    requires
        0 <= n < 100,
    ensures
        two_digits(n).len() == 2,
        48 <= two_digits(n)[0] as int <= 57,
        48 <= two_digits(n)[1] as int <= 57,
        10 * (two_digits(n)[0] as int - 48) + (two_digits(n)[1] as int - 48) == n,
{
    reveal_with_fuel(decimal, 3);
}

/// A time left is told in minutes and seconds, and in hours before them where there
/// are any; what is less than a second does not count.
pub proof fn lemma_countdown_is(h: nat, m: nat, s: nat, ms: nat)
    requires
        m < 60,
        s < 60,
        ms < 1000,
    ensures
        countdown(((h * 3600 + m * 60 + s) * 1000 + ms) as int) == if h > 0 {
            decimal(h) + seq![':'] + two_digits(m as int) + seq![':'] + two_digits(s as int)
        } else {
            decimal(m) + seq![':'] + two_digits(s as int)
        },
        countdown(-(ms as int)) == seq!['0', ':', '0', '0'],
{
    let total = h * 3600 + m * 60 + s;
    let all = total * 1000 + ms;
    assert(all / 1000 == total);
    assert(total / 3600 == h);
    assert(total % 3600 == m * 60 + s);
    assert((m * 60 + s) / 60 == m);
    assert(total % 60 == s);
    assert(countdown(-(ms as int)) =~= seq!['0', ':', '0', '0']);
}

/// The bar holds twenty bites, as many of them as are needed for the share of the
/// time that is left.
pub proof fn lemma_bites_are(target: int, span: int, now: int)
    requires
        span >= 1,
    ensures
        0 <= bites(target, span, now) <= 20,
        0 < target - now <= span ==> bites(target, span, now) * span >= 20 * (target - now) && (
        bites(target, span, now) - 1) * span < 20 * (target - now),
        target <= now ==> bar_label(target, now) == "EAT!"@,
        target > now ==> bar_label(target, now) == countdown(target - now),
{
    let left = target - now;
    if 0 < left < span {
        let top = left * 20 + span - 1;
        let b = top / span;
        vstd::arithmetic::div_mod::lemma_fundamental_div_mod(top, span);
        vstd::arithmetic::div_mod::lemma_mod_bound(top, span);
        assert(b * span == span * b) by (nonlinear_arith);
        assert((b - 1) * span == b * span - span) by (nonlinear_arith);
        assert(b <= 20) by (nonlinear_arith)
            requires
                b * span <= left * 20 + span - 1,
                left < span,
                span >= 1,
        ;
        assert(b >= 0) by (nonlinear_arith)
            requires
                b * span >= 20 * left,
                left > 0,
                span >= 1,
        ;
    } else if left == span {
        assert(20 * span >= 20 * left && 19 * span < 20 * left);
    }
}

/// The apples share out the bites, four to each, from the left; each is drawn by
/// what is left of it, whole first, and one that is eaten not at all.
pub proof fn lemma_apples_are(hunger: &Hunger, fill: int, slot: int)
    requires
        0 <= fill <= 20,
        0 <= slot < 5,
    ensures
        Hunger::level(fill, 0) + Hunger::level(fill, 1) + Hunger::level(fill, 2) + Hunger::level(
            fill,
            3,
        ) + Hunger::level(fill, 4) == fill,
        0 <= Hunger::level(fill, slot) <= 4,
        Hunger::level(fill, slot) < 4 ==> Hunger::level(fill, slot + 1) == 0,
        hunger.apples(0).len() == 0,
        ({
            let level = Hunger::level(hunger.view.fill as int, slot);
            &&& level == 0 ==> hunger.apples(slot + 1) == hunger.apples(slot)
            &&& level > 0 ==> hunger.apples(slot + 1) == hunger.apples(slot).push(
                ShapeView::Picture {
                    sprite: 4 - level,
                    src: Rect { x: 0, y: 0, w: hunger.apple.w, h: hunger.apple.h },
                    x: slot * hunger.apple.w,
                    y: 0,
                },
            )
        }),
{
}

/// Time empties the bar and changes nothing else; a press on an empty one eats what
/// was due, and on any other nothing; after that the bar leads to the next meal.
pub proof fn lemma_meals_are_eaten(
    hunger: &Hunger,
    meals: &Vec<i64>,
    now: i64,
    after: &Hunger,
    changed: bool,
    eaten: EatenThrough,
    r: Option<EatenThrough>,
)
    ensures
        hunger.time_leads_to(now, after, changed) ==> after.target == hunger.target && after.span
            == hunger.span && after.view.fill == bites(
            hunger.target as int,
            hunger.span as int,
            now as int,
        ) && (now >= hunger.target ==> after.view.label@ == "EAT!"@) && (after.view.fill
            != hunger.view.fill ==> changed),
        hunger.press_eats(meals, now, r) ==> (r is Some <==> hunger.view.fill == 0) && (
        r matches Some(at) ==> at.at == meal_before(meals@, now as int)),
        hunger.eating_leads_to(eaten, meals, now, after) ==> after.target == meal_after(
            meals@,
            eaten.at as int,
        ) && (after.target - eaten.at >= 1000 ==> after.span == after.target - eaten.at)
            && after.view.fill == bites(after.target as int, after.span as int, now as int)
            && after.apple == hunger.apple,
{
}

/// A bar starts as if it had been kept up to the instant that is given; without one, or
/// with one that is still to come, as if everything up to now were eaten.
pub proof fn lemma_bar_starts(
    apple: Size,
    cell_h: usize,
    kept: Option<i64>,
    meals: &Vec<i64>,
    now: i64,
    r: Hunger,
)
    requires
        Hunger::starts(apple, cell_h, kept, meals, now, r),
    ensures
        r.apple == apple && r.cell_h == cell_h,
        kept matches Some(at) ==> (at <= now ==> (r.target as int, r.span as int) == window(
            meals@,
            at as int,
        )),
        kept matches Some(at) ==> (at > now ==> (r.target as int, r.span as int) == window(
            meals@,
            meal_before(meals@, now as int),
        )),
        kept is None ==> (r.target as int, r.span as int) == window(
            meals@,
            meal_before(meals@, now as int),
        ),
        r.view.fill == bites(r.target as int, r.span as int, now as int),
        r.view.label@ == bar_label(r.target as int, now as int),
{
}

} // verus!
