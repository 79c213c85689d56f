//! A candle that burns down with the battery.
use vstd::prelude::*;

use crate::chars::{
    chars_are, chars_match_ignoring_case, chars_start_with, decimal, digit, lemma_decimal_is,
    lemma_numbers_read_back, lemma_trim_is, parse_unsigned, same_ignoring_ascii_case, starts_with,
    to_chars, trim, trim_chars, unsigned_value,
};
use crate::graphics::{span, Rect};
use crate::scene::{shape_views, Shape, ShapeView};

verus! {

/// The most wax slices that stand between the holder and the top.
pub const MAX_MIDDLE: usize = 4;

/// Below this charge the candle is a stub.
pub const LOW_THRESHOLD: u8 = 15;

/// From this charge on a candle that does not burn looks full.
pub const FULL_THRESHOLD: u8 = 95;

/// Seconds between readings.
pub const REFRESH_SECS: u64 = 10;

/// The size of a picture.
#[derive(Clone, Copy, PartialEq, Eq, Structural, Debug)]
pub struct Size {
    pub w: usize,
    pub h: usize,
}

/// The sizes of the candle's pictures, in the order of their sprites.
#[derive(Clone, Copy, PartialEq, Eq, Structural, Debug)]
pub struct CandleArt {
    pub base: Size,
    pub middle: Size,
    pub top_lit: Size,
    pub top_unlit: Size,
    pub top_full: Size,
    pub low: Size,
}

impl CandleArt {
    /// Pictures of a size that pixel arithmetic can hold.
    pub open spec fn wf(self) -> bool {
        &&& self.base.h <= span()
        &&& self.middle.h <= span()
        &&& self.top_lit.h <= span()
        &&& self.top_unlit.h <= span()
        &&& self.top_full.h <= span()
        &&& self.low.h <= span()
    }
}

pub struct Fizzle {
    pub art: CandleArt,
    pub charge: u8,
    pub discharging: bool,
    pub battery_read_failing: bool,
}

/// A battery's charge in percent, at most 100, and whether it discharges.
pub open spec fn battery(capacity: Seq<char>, status: Seq<char>) -> Option<(int, bool)> {
    match unsigned_value(trim(capacity), 255) {
        Some(n) => Some(
            (
                if n < 100 {
                    n as int
                } else {
                    100
                },
                same_ignoring_ascii_case(trim(status), "Discharging"@),
            ),
        ),
        None => None,
    }
}

/// Reads a battery's files; a status that could not be read is empty.
pub fn battery_reading(capacity: &str, status: &str) -> (r: Option<(u8, bool)>)
    ensures
        match r {
            Some((charge, discharging)) => battery(capacity@, status@) == Some(
                (charge as int, discharging),
            ),
            None => battery(capacity@, status@) is None,
        },
{
    let capacity_chars = to_chars(capacity);
    let status_chars = to_chars(status);
    match parse_unsigned(trim_chars(&capacity_chars), 255) {
        None => None,
        Some(n) => {
            let charge: u8 = if n < 100 {
                n as u8
            } else {
                100
            };
            Some((charge, chars_match_ignoring_case(trim_chars(&status_chars), "Discharging")))
        },
    }
}

/// A power supply that reports a capacity: its name, and its type when that
/// could be read.
pub struct Supply {
    pub name: String,
    pub kind: Option<String>,
}

/// Whether a supply is the system's battery: it is named like one and says it
/// is one, which a mouse or keyboard does not.
pub open spec fn system_battery(supply: Supply) -> bool {
    starts_with(supply.name@, "BAT"@) && (supply.kind matches Some(kind) && trim(kind@)
        == "Battery"@)
}

/// The first system battery; without one, the first supply.
pub open spec fn chosen_supply(supplies: Seq<Supply>, r: Option<int>) -> bool {
    match r {
        None => supplies.len() == 0,
        Some(i) => {
            &&& 0 <= i < supplies.len()
            &&& if system_battery(supplies[i]) {
                forall|j: int| 0 <= j < i ==> !system_battery(#[trigger] supplies[j])
            } else {
                i == 0 && forall|j: int|
                    0 <= j < supplies.len() ==> !system_battery(#[trigger] supplies[j])
            }
        },
    }
}

pub fn battery_dir(supplies: &Vec<Supply>) -> (r: Option<usize>)
    ensures
        chosen_supply(
            supplies@,
            match r {
                Some(i) => Some(i as int),
                None => None,
            },
        ),
{
    let mut i: usize = 0;
    while i < supplies.len()
        invariant
            i <= supplies@.len(),
            forall|j: int| 0 <= j < i ==> !system_battery(#[trigger] supplies@[j]),
        decreases supplies@.len() - i,
    {
        let supply = &supplies[i];
        let name = to_chars(supply.name.as_str());
        let prefix = to_chars("BAT");
        if chars_start_with(&name, &prefix) {
            if let Some(kind) = &supply.kind {
                let kind_chars = to_chars(kind.as_str());
                if chars_are(trim_chars(&kind_chars), "Battery") {
                    return Some(i);
                }
            }
        }
        i += 1;
    }
    if supplies.len() > 0 {
        Some(0)
    } else {
        None
    }
}

impl Fizzle {
    /// A candle for a reading; a full one that does not burn without it.
    pub fn load(art: CandleArt, reading: Option<(u8, bool)>) -> (r: Self)
        ensures
            r.art == art,
            (r.charge, r.discharging) == (match reading {
                Some(pair) => pair,
                None => (100u8, false),
            }),
            !r.battery_read_failing,
    {
        let (charge, discharging) = match reading {
            Some(pair) => pair,
            None => (100, false),
        };
        Fizzle { art, charge, discharging, battery_read_failing: false }
    }

    pub fn width(&self) -> (r: usize)
        ensures
            r == (if self.art.base.w > self.art.low.w {
                self.art.base.w
            } else {
                self.art.low.w
            }),
    {
        if self.art.base.w > self.art.low.w {
            self.art.base.w
        } else {
            self.art.low.w
        }
    }

    /// Room for the tallest candle.
    pub open spec fn room(&self) -> int {
        self.art.base.h + MAX_MIDDLE * self.art.middle.h + self.art.top_lit.h
    }

    pub fn height(&self) -> (r: usize)
        requires
            self.art.wf(),
        ensures
            r == self.room(),
            r <= 6 * span() + 6,
    {
        self.art.base.h + MAX_MIDDLE * self.art.middle.h + self.art.top_lit.h
    }

    /// What a new reading leads to.
    pub open spec fn reading_leads_to(
        &self,
        reading: Option<(u8, bool)>,
        after: &Self,
        r: bool,
    ) -> bool {
        &&& after.art == self.art
        &&& after.battery_read_failing == (reading is None)
        &&& (after.charge, after.discharging) == (match reading {
            Some(pair) => pair,
            None => (self.charge, self.discharging),
        })
        &&& r == (after.charge != self.charge || after.discharging != self.discharging)
    }

    /// Takes in a reading or its failure, which keeps the last one. Answers
    /// whether the candle changed.
    pub fn update(&mut self, reading: Option<(u8, bool)>) -> (r: bool)
        ensures
            old(self).reading_leads_to(reading, final(self), r),
    {
        match reading {
            None => {
                self.battery_read_failing = true;
                false
            },
            Some((charge, discharging)) => {
                self.battery_read_failing = false;
                if charge == self.charge && discharging == self.discharging {
                    return false;
                }
                self.charge = charge;
                self.discharging = discharging;
                true
            },
        }
    }

    /// The wax column in pixels: none at the low threshold, all of it at 100.
    pub open spec fn wax(&self) -> int {
        let most = MAX_MIDDLE * self.art.middle.h;
        if self.charge <= LOW_THRESHOLD {
            0
        } else if self.charge >= 100 {
            most
        } else {
            (self.charge - LOW_THRESHOLD) * most / (100 - LOW_THRESHOLD)
        }
    }

    pub fn wax_height(&self) -> (r: usize)
        requires
            self.art.wf(),
        ensures
            r == self.wax(),
            r <= MAX_MIDDLE * self.art.middle.h,
    {
        let most: usize = MAX_MIDDLE * self.art.middle.h;
        if self.charge <= LOW_THRESHOLD {
            return 0;
        }
        let above: usize = (self.charge - LOW_THRESHOLD) as usize;
        proof {
            assert(above * most <= 240 * most && 0 <= above * most) by (nonlinear_arith)
                requires
                    0 <= above <= 240,
                    0 <= most,
            ;
            assert(above <= 85 ==> (above * most) / 85 <= most) by (nonlinear_arith)
                requires
                    0 <= above,
                    0 <= most,
            ;
            assert(above >= 85 ==> (above * most) / 85 >= most) by (nonlinear_arith)
                requires
                    0 <= above,
                    0 <= most,
            ;
        }
        let wax: usize = above * most / 85;
        if wax < most {
            wax
        } else {
            most
        }
    }

    /// The top that the candle wears: its sprite and size.
    pub open spec fn top(&self) -> (int, Size) {
        if self.discharging {
            (2, self.art.top_lit)
        } else if self.charge >= FULL_THRESHOLD {
            (4, self.art.top_full)
        } else {
            (3, self.art.top_unlit)
        }
    }

    /// The candle's picture: a stub when the charge is low; else the holder at
    /// the bottom, rows of wax upwards that repeat the middle slice, and the
    /// top on them.
    pub open spec fn picture(&self) -> Seq<ShapeView> {
        let whole = |size: Size| Rect { x: 0, y: 0, w: size.w, h: size.h };
        if self.charge < LOW_THRESHOLD {
            let y = self.room() - self.art.low.h;
            seq![
                ShapeView::Picture {
                    sprite: 5,
                    src: whole(self.art.low),
                    x: 0,
                    y: if y > 0 {
                        y
                    } else {
                        0
                    },
                },
            ]
        } else {
            let base_top = self.room() - self.art.base.h;
            let (sprite, size) = self.top();
            seq![ShapeView::Picture { sprite: 0, src: whole(self.art.base), x: 0, y: base_top }]
                + self.wax_rows(base_top, self.wax()) + seq![
                ShapeView::Picture {
                    sprite,
                    src: whole(size),
                    x: 0,
                    y: base_top - self.wax() - size.h,
                },
            ]
        }
    }

    /// The first rows of wax above a row.
    pub open spec fn wax_rows(&self, base_top: int, count: int) -> Seq<ShapeView> {
        Seq::new(
            count as nat,
            |row: int|
                ShapeView::Picture {
                    sprite: 1,
                    src: Rect {
                        x: 0,
                        y: (row % self.art.middle.h as int) as usize,
                        w: self.art.middle.w,
                        h: 1,
                    },
                    x: 0,
                    y: base_top - 1 - row,
                },
        )
    }

    pub fn shapes(&self) -> (r: Vec<Shape>)
        requires
            self.art.wf(),
        ensures
            shape_views(r@) == self.picture(),
    {
        let mut out: Vec<Shape> = Vec::new();
        let height: usize = self.height();
        if self.charge < LOW_THRESHOLD {
            let y: usize = if height > self.art.low.h {
                height - self.art.low.h
            } else {
                0
            };
            let src = Rect::new(0, 0, self.art.low.w, self.art.low.h);
            out.push(Shape::Picture { sprite: 5, src, x: 0, y: y as isize });
            assert(shape_views(out@) =~= self.picture());
            return out;
        }
        let base_top: isize = (height - self.art.base.h) as isize;
        let src = Rect::new(0, 0, self.art.base.w, self.art.base.h);
        out.push(Shape::Picture { sprite: 0, src, x: 0, y: base_top });
        let wax: usize = self.wax_height();
        let ghost base = ShapeView::Picture { sprite: 0, src, x: 0, y: base_top as int };
        let mut row: usize = 0;
        assert(shape_views(out@) =~= seq![base] + self.wax_rows(base_top as int, 0));
        while row < wax
            invariant
                self.art.wf(),
                row <= wax,
                wax <= MAX_MIDDLE * self.art.middle.h,
                0 <= base_top <= 6 * span() + 6,
                shape_views(out@) =~= seq![base] + self.wax_rows(base_top as int, row as int),
            decreases wax - row,
        {
            let ghost before = out@;
            let src = Rect::new(0, row % self.art.middle.h, self.art.middle.w, 1);
            out.push(Shape::Picture { sprite: 1, src, x: 0, y: base_top - 1 - row as isize });
            proof {
                let pushed = out@.last()@;
                assert(shape_views(out@) =~= shape_views(before).push(pushed));
                assert(self.wax_rows(base_top as int, row + 1) =~= self.wax_rows(
                    base_top as int,
                    row as int,
                ).push(pushed));
            }
            row += 1;
        }
        let (sprite, size): (usize, Size) = if self.discharging {
            (2, self.art.top_lit)
        } else if self.charge >= FULL_THRESHOLD {
            (4, self.art.top_full)
        } else {
            (3, self.art.top_unlit)
        };
        let ghost before = out@;
        let src = Rect::new(0, 0, size.w, size.h);
        out.push(Shape::Picture { sprite, src, x: 0, y: base_top - wax as isize - size.h as isize });
        proof {
            assert(shape_views(out@) =~= shape_views(before).push(out@.last()@));
            assert(shape_views(out@) =~= self.picture());
        }
        out
    }
}

/// More charge never means less wax.
pub proof fn lemma_wax_grows(a: Fizzle, b: Fizzle)
    requires
        a.art == b.art,
        a.charge <= b.charge,
    ensures
        a.wax() <= b.wax() <= MAX_MIDDLE * b.art.middle.h,
{
    let most = MAX_MIDDLE * b.art.middle.h;
    let (x, y) = (a.charge - LOW_THRESHOLD, b.charge - LOW_THRESHOLD);
    assert(0 <= x <= y ==> (x * most) / 85 <= (y * most) / 85) by (nonlinear_arith)
        requires
            0 <= most,
    ;
    assert(0 <= x <= 85 ==> 0 <= (x * most) / 85 <= most) by (nonlinear_arith)
        requires
            0 <= most,
    ;
    assert(0 <= y <= 85 ==> 0 <= (y * most) / 85 <= most) by (nonlinear_arith)
        requires
            0 <= most,
    ;
}

/// A battery's charge is its number, a hundred at most, and it is discharging when
/// its status says just that, in either case.
pub proof fn lemma_battery_is(n: nat, status: Seq<char>)
    ensures
        n <= 100 ==> battery(decimal(n), status) == Some(
            (n as int, same_ignoring_ascii_case(trim(status), "Discharging"@)),
        ),
        100 < n <= 255 ==> battery(decimal(n), status) == Some(
            (100int, same_ignoring_ascii_case(trim(status), "Discharging"@)),
        ),
        n > 255 ==> battery(decimal(n), status) is None,
        battery(Seq::empty(), status) is None,
{
    let s = decimal(n);
    lemma_decimal_is(n);
    assert(digit(s[0]) && digit(s[s.len() - 1]));
    lemma_trim_is(s, 0, s.len() as int);
    assert(s.subrange(0, s.len() as int) =~= s);
    lemma_numbers_read_back(n, 255, 0, Seq::empty());
    assert(trim(Seq::<char>::empty()) =~= Seq::<char>::empty());
}

/// The candle has no wax up to fifteen percent and four middle parts when full, and
/// between them the share of what is above fifteen.
pub proof fn lemma_wax_is(candle: &Fizzle)
    ensures
        ({
            let most = 4 * candle.art.middle.h;
            &&& candle.charge <= 15 ==> candle.wax() == 0
            &&& candle.charge >= 100 ==> candle.wax() == most
            &&& 15 < candle.charge < 100 ==> candle.wax() * 85 <= (candle.charge - 15) * most < (
            candle.wax() + 1) * 85
        }),
{
}

/// A burning candle is a lit one; one on the mains is not, and is a full one from
/// ninety-five percent on.
pub proof fn lemma_flame_is(candle: &Fizzle)
    ensures
        candle.discharging ==> candle.top() == (2int, candle.art.top_lit),
        !candle.discharging && candle.charge >= 95 ==> candle.top() == (4int, candle.art.top_full),
        !candle.discharging && candle.charge < 95 ==> candle.top() == (3int, candle.art.top_unlit),
{
}

/// The candle stands on its base at the bottom of its room, with the wax on the
/// base row by row and the flame on the wax. Below fifteen percent only the low
/// candle is drawn.
pub proof fn lemma_candle_stands(candle: &Fizzle, row: int)
    requires
        candle.charge >= 15,
        0 <= row < candle.wax(),
    ensures
        ({
            let s = candle.picture();
            let n = candle.wax();
            let room = candle.art.base.h + 4 * candle.art.middle.h + candle.art.top_lit.h;
            let base_top = room - candle.art.base.h;
            let (sprite, size) = candle.top();
            &&& s.len() == n + 2
            &&& s[0] == (ShapeView::Picture {
                sprite: 0,
                src: Rect { x: 0, y: 0, w: candle.art.base.w, h: candle.art.base.h },
                x: 0,
                y: base_top,
            })
            &&& s[row + 1] == (ShapeView::Picture {
                sprite: 1,
                src: Rect {
                    x: 0,
                    y: (row % candle.art.middle.h as int) as usize,
                    w: candle.art.middle.w,
                    h: 1,
                },
                x: 0,
                y: base_top - 1 - row,
            })
            &&& s[n + 1] == (ShapeView::Picture {
                sprite,
                src: Rect { x: 0, y: 0, w: size.w, h: size.h },
                x: 0,
                y: base_top - n - size.h,
            })
        }),
{
}

/// A candle that is low is one picture at the bottom of the room.
pub proof fn lemma_low_candle(candle: &Fizzle)
    requires
        candle.charge < 15,
    ensures
        ({
            let room = candle.art.base.h + 4 * candle.art.middle.h + candle.art.top_lit.h;
            &&& candle.picture().len() == 1
            &&& candle.picture()[0] matches ShapeView::Picture { sprite, src, x, y } && sprite == 5
                && src == (Rect { x: 0, y: 0, w: candle.art.low.w, h: candle.art.low.h }) && x == 0
                && (candle.art.low.h <= room ==> y + candle.art.low.h == room)
        }),
{
}

/// A new reading is shown as it is, and where none could be read the old one stays;
/// it says whether that changed anything.
pub proof fn lemma_charges_lead(
    candle: &Fizzle,
    reading: Option<(u8, bool)>,
    after: &Fizzle,
    r: bool,
)
    requires
        candle.reading_leads_to(reading, after, r),
    ensures
        after.art == candle.art,
        reading is None ==> after.charge == candle.charge && after.discharging
            == candle.discharging && !r && after.battery_read_failing,
        reading matches Some((charge, discharging)) ==> after.charge == charge && after.discharging
            == discharging && !after.battery_read_failing && (r <==> charge != candle.charge
            || discharging != candle.discharging),
{
}

/// The supply that counts is the first battery of the system; where there is none it
/// is the first of all, and where there is nothing none.
pub proof fn lemma_supplies_are_chosen(supplies: Seq<Supply>, r: Option<int>, i: int)
    requires
        chosen_supply(supplies, r),
        0 <= i < supplies.len(),
    ensures
        r is Some,
        r matches Some(k) ==> 0 <= k < supplies.len(),
        ({
            let battery = |s: Supply|
                starts_with(s.name@, "BAT"@) && (s.kind matches Some(kind) && trim(kind@)
                    == "Battery"@);
            &&& battery(supplies[i]) ==> (r matches Some(k) && k <= i && battery(supplies[k]))
            &&& r matches Some(k) ==> (!battery(supplies[k]) ==> k == 0 && !battery(supplies[i]))
        }),
{
    if system_battery(supplies[i]) {
        assert(r is Some);
        let k = r->0;
        if !system_battery(supplies[k]) {
            assert(!system_battery(supplies[i]));
        } else if k > i {
            assert(!system_battery(supplies[i]));
        }
    }
}

} // verus!
