//! Dials for processor, memory and swap use, read from the kernel's counters.
use vstd::prelude::*;

use crate::chars::{
    chars_start_with, decimal, decimal_chars, first_matching, from_chars, lemma_first_matching,
    lines_chars, lines_of, parse_unsigned, split_words, starts_with, to_chars, unsigned_value,
    views, words_of,
};
use crate::graphics::span;
use crate::palette_color::{BLACK, CREAM, GUNMETAL};
use crate::scene::{shape_views, Shape, ShapeView};

verus! {

/// The diameter of a dial.
pub const GAUGE_D: usize = 56;

pub const GAUGE_GAP: usize = 8;

pub const GAUGE_COUNT: usize = 3;

pub const LABEL_GAP: usize = 3;

/// Seconds between readings.
pub const REFRESH_SECS: u64 = 1;

/// Use in whole percents.
#[derive(Clone, Copy, PartialEq, Eq, Structural, Debug)]
pub struct GaugeView {
    pub cpu: u8,
    pub mem: u8,
    pub swap: u8,
}

pub struct Gauges {
    pub cell_h: usize,
    pub cpu_prev: (u64, u64),
    pub view: GaugeView,
    pub cpu_read_failing: bool,
    pub mem_read_failing: bool,
}

/// The numbers among a line's words after the first.
pub open spec fn counters(words: Seq<Seq<char>>) -> Seq<nat>
    decreases words.len(),
{
    if words.len() <= 1 {
        Seq::empty()
    } else {
        match unsigned_value(words.last(), u64::MAX as nat) {
            Some(n) => counters(words.drop_last()).push(n),
            None => counters(words.drop_last()),
        }
    }
}

pub open spec fn total(vals: Seq<nat>) -> nat
    decreases vals.len(),
{
    if vals.len() == 0 {
        0
    } else {
        total(vals.drop_last()) + vals.last()
    }
}

pub open spec fn naturals(vals: Seq<u64>) -> Seq<nat> {
    Seq::new(vals.len(), |i: int| vals[i] as nat)
}

/// All time and idle time on a line of counters: idle time is the fourth
/// counter and the fifth, if there is one.
pub open spec fn cpu_times(vals: Seq<nat>) -> Option<(nat, nat)> {
    if vals.len() > 3 {
        Some(
            (
                total(vals),
                vals[3] + if vals.len() > 4 {
                    vals[4]
                } else {
                    0
                },
            ),
        )
    } else {
        None
    }
}

/// The counters on a line of processor times.
pub fn line_counters(line: &str) -> (r: Vec<u64>)
    ensures
        naturals(r@) == counters(words_of(line@)),
{
    let chars = to_chars(line);
    let words = split_words(&chars);
    let mut vals: Vec<u64> = Vec::new();
    let mut i: usize = 0;
    assert(naturals(vals@) =~= counters(views(words@).take(0)));
    while i < words.len()
        invariant
            i <= words@.len(),
            naturals(vals@) =~= counters(views(words@).take(i as int)),
        decreases words@.len() - i,
    {
        let ghost now = views(words@).take(i + 1);
        assert(now.drop_last() =~= views(words@).take(i as int));
        assert(now.last() == words@[i as int]@);
        if i > 0 {
            if let Some(n) = parse_unsigned(&words[i], u64::MAX) {
                let ghost before = vals@;
                vals.push(n);
                assert(naturals(vals@) =~= naturals(before).push(n as nat));
            }
        }
        i += 1;
    }
    assert(views(words@).take(words@.len() as int) =~= words_of(line@));
    vals
}

/// Whether the counters on a line add up to a number that fits.
pub fn counters_fit(line: &str) -> (r: bool)
    ensures
        r == (total(counters(words_of(line@))) <= u64::MAX),
{
    let vals = line_counters(line);
    let mut sum: u64 = 0;
    let mut i: usize = 0;
    assert(naturals(vals@).take(0) =~= Seq::empty());
    while i < vals.len()
        invariant
            i <= vals@.len(),
            naturals(vals@) == counters(words_of(line@)),
            sum == total(naturals(vals@).take(i as int)),
        decreases vals@.len() - i,
    {
        assert(naturals(vals@).take(i + 1).drop_last() =~= naturals(vals@).take(i as int));
        proof {
            lemma_total_prefix(naturals(vals@), i + 1);
        }
        if vals[i] > u64::MAX - sum {
            return false;
        }
        sum = sum + vals[i];
        i += 1;
    }
    assert(naturals(vals@).take(vals@.len() as int) =~= naturals(vals@));
    true
}

proof fn lemma_total_prefix(vals: Seq<nat>, n: int)
    requires
        0 <= n <= vals.len(),
    ensures
        total(vals.take(n)) <= total(vals),
    decreases vals.len() - n,
{
    if n < vals.len() {
        lemma_total_prefix(vals, n + 1);
        assert(vals.take(n + 1).drop_last() =~= vals.take(n));
    } else {
        assert(vals.take(n) =~= vals);
    }
}

pub fn cpu_times_from_line(line: &str) -> (r: Option<(u64, u64)>)
    requires
        total(counters(words_of(line@))) <= u64::MAX,
    ensures
        match r {
            Some((all, idle)) => cpu_times(counters(words_of(line@))) == Some(
                (all as nat, idle as nat),
            ),
            None => cpu_times(counters(words_of(line@))) is None,
        },
{
    let vals = line_counters(line);
    let ghost nats = naturals(vals@);
    let mut sum: u64 = 0;
    let mut i: usize = 0;
    assert(nats.take(0) =~= Seq::empty());
    while i < vals.len()
        invariant
            i <= vals@.len(),
            nats == naturals(vals@),
            total(nats) <= u64::MAX,
            sum == total(nats.take(i as int)),
        decreases vals@.len() - i,
    {
        assert(nats.take(i + 1).drop_last() =~= nats.take(i as int));
        proof {
            lemma_total_prefix(nats, i + 1);
        }
        sum = sum + vals[i];
        i += 1;
    }
    assert(nats.take(vals@.len() as int) =~= nats);
    if vals.len() <= 3 {
        return None;
    }
    proof {
        reveal_with_fuel(total, 6);
        if vals@.len() > 4 {
            lemma_total_prefix(nats, 5);
            let five = nats.take(5);
            assert(five.drop_last() =~= nats.take(4));
            assert(total(five) >= nats[3] + nats[4]) by {
                let four = nats.take(4);
                assert(four.last() == nats[3]);
                assert(five.last() == nats[4]);
            }
        }
    }
    let idle: u64 = if vals.len() > 4 {
        vals[3] + vals[4]
    } else {
        vals[3]
    };
    Some((sum, idle))
}

/// Busy time in percent of the time between two samples; nothing when no time
/// has passed, or when the counter went back.
pub open spec fn busy_percent(prev: (u64, u64), cur: (u64, u64)) -> Option<int> {
    let passed = cur.0 - prev.0;
    if passed <= 0 {
        None
    } else {
        let idle = if cur.1 <= prev.1 {
            0
        } else if cur.1 - prev.1 < passed {
            cur.1 - prev.1
        } else {
            passed
        };
        Some(100 * (passed - idle) / passed)
    }
}

pub fn cpu_percent(prev: (u64, u64), cur: (u64, u64)) -> (r: Option<u8>)
    ensures
        match r {
            Some(percent) => busy_percent(prev, cur) == Some(percent as int) && percent <= 100,
            None => busy_percent(prev, cur) is None,
        },
{
    if cur.0 <= prev.0 {
        return None;
    }
    let passed: u64 = cur.0 - prev.0;
    let idle: u64 = if cur.1 <= prev.1 {
        0
    } else if cur.1 - prev.1 < passed {
        cur.1 - prev.1
    } else {
        passed
    };
    let busy: u64 = passed - idle;
    assert(0 <= (100 * busy) / passed as int <= 100) by (nonlinear_arith)
        requires
            0 <= busy <= passed,
            passed > 0,
    ;
    Some((100 * busy as u128 / passed as u128) as u8)
}

/// The used part of something in percent; none of nothing.
pub open spec fn used_percent(total: int, free: int) -> int {
    if total == 0 || free >= total {
        0
    } else {
        100 * (total - free) / total
    }
}

pub fn percent_used(total: u64, free: u64) -> (r: u8)
    ensures
        r == used_percent(total as int, free as int),
        r <= 100,
{
    if total == 0 || free >= total {
        return 0;
    }
    let used: u64 = total - free;
    assert(0 <= (100 * used) / total as int <= 100) by (nonlinear_arith)
        requires
            0 <= used <= total,
            total > 0,
    ;
    (100 * used as u128 / total as u128) as u8
}

/// The number after a key: the second word of the first line that starts with
/// the key.
pub open spec fn keyed_number(text: Seq<char>, key: Seq<char>) -> Option<nat> {
    match first_matching(lines_of(text), |line: Seq<char>| starts_with(line, key)) {
        Some(i) => {
            let words = words_of(lines_of(text)[i]);
            if words.len() > 1 {
                unsigned_value(words[1], u64::MAX as nat)
            } else {
                None
            }
        },
        None => None,
    }
}

pub fn meminfo_kb(text: &str, key: &str) -> (r: Option<u64>)
    ensures
        match r {
            Some(n) => keyed_number(text@, key@) == Some(n as nat),
            None => keyed_number(text@, key@) is None,
        },
{
    let chars = to_chars(text);
    let key_chars = to_chars(key);
    let lines = lines_chars(&chars);
    let ghost holds = |line: Seq<char>| starts_with(line, key@);
    let mut i: usize = 0;
    while i < lines.len()
        invariant
            i <= lines@.len(),
            views(lines@) == lines_of(text@),
            key_chars@ == key@,
            holds == (|line: Seq<char>| starts_with(line, key@)),
            forall|j: int| 0 <= j < i ==> !holds(#[trigger] views(lines@)[j]),
        decreases lines@.len() - i,
    {
        if chars_start_with(&lines[i], &key_chars) {
            proof {
                assert(holds(views(lines@)[i as int]));
                lemma_first_matching(views(lines@), holds, i as int);
            }
            let words = split_words(&lines[i]);
            assert(views(words@).len() == words@.len());
            return if words.len() > 1 {
                assert(views(words@)[1] == words@[1]@);
                parse_unsigned(&words[1], u64::MAX)
            } else {
                None
            };
        }
        assert(!holds(views(lines@)[i as int]));
        i += 1;
    }
    proof {
        lemma_first_matching(views(lines@), holds, i as int);
    }
    None
}

/// Memory and swap use from the kernel's memory report.
pub open spec fn memory_use(text: Seq<char>) -> Option<(int, int)> {
    match (
        keyed_number(text, "MemTotal:"@),
        keyed_number(text, "MemAvailable:"@),
        keyed_number(text, "SwapTotal:"@),
        keyed_number(text, "SwapFree:"@),
    ) {
        (Some(mem), Some(available), Some(swap), Some(free)) => Some(
            (used_percent(mem as int, available as int), used_percent(swap as int, free as int)),
        ),
        _ => None,
    }
}

pub fn mem_percents(text: &str) -> (r: Option<(u8, u8)>)
    ensures
        match r {
            Some((mem, swap)) => memory_use(text@) == Some((mem as int, swap as int)),
            None => memory_use(text@) is None,
        },
{
    let total = meminfo_kb(text, "MemTotal:")?;
    let available = meminfo_kb(text, "MemAvailable:")?;
    let mem: u8 = percent_used(total, available);
    let swap_total = meminfo_kb(text, "SwapTotal:")?;
    let swap_free = meminfo_kb(text, "SwapFree:")?;
    Some((mem, percent_used(swap_total, swap_free)))
}

/// The labels under the dials.
pub open spec fn label(i: int) -> Seq<char> {
    if i == 0 {
        "CPU"@
    } else if i == 1 {
        "MEM"@
    } else {
        "SWP"@
    }
}

impl Gauges {
    /// The gauges as they start.
    pub open spec fn starts(
        cell_h: usize,
        cpu: Option<(u64, u64)>,
        mem: Option<(u8, u8)>,
        r: Self,
    ) -> bool {
        &&& r.cell_h == cell_h
        &&& r.cpu_prev == (match cpu {
            Some(sample) => sample,
            None => (0u64, 0u64),
        })
        &&& r.view.cpu == 0
        &&& (r.view.mem, r.view.swap) == (match mem {
            Some(pair) => pair,
            None => (0u8, 0u8),
        })
        &&& !r.cpu_read_failing
        &&& !r.mem_read_failing
    }

    /// New dials: no processor use yet, and the given memory use, or none.
    pub fn load(cell_h: usize, cpu: Option<(u64, u64)>, mem: Option<(u8, u8)>) -> (r: Self)
        ensures
            Self::starts(cell_h, cpu, mem, r),
    {
        let cpu_prev = match cpu {
            Some(sample) => sample,
            None => (0, 0),
        };
        let (mem, swap) = match mem {
            Some(pair) => pair,
            None => (0, 0),
        };
        Gauges {
            cell_h,
            cpu_prev,
            view: GaugeView { cpu: 0, mem, swap },
            cpu_read_failing: false,
            mem_read_failing: false,
        }
    }

    pub fn width(&self) -> (r: usize)
        ensures
            r == GAUGE_COUNT * GAUGE_D + (GAUGE_COUNT - 1) * GAUGE_GAP,
    {
        GAUGE_COUNT * GAUGE_D + (GAUGE_COUNT - 1) * GAUGE_GAP
    }

    pub fn height(&self) -> (r: usize)
        requires
            self.cell_h <= span(),
        ensures
            r == GAUGE_D + LABEL_GAP + self.cell_h,
    {
        GAUGE_D + LABEL_GAP + self.cell_h
    }

    /// What new readings lead to.
    pub open spec fn reading_leads_to(
        &self,
        cpu: Option<(u64, u64)>,
        mem: Option<(u8, u8)>,
        after: &Self,
        r: bool,
    ) -> bool {
        &&& after.cell_h == self.cell_h
        &&& after.cpu_read_failing == (cpu is None)
        &&& after.mem_read_failing == (mem is None)
        &&& match cpu {
            Some(sample) => {
                &&& after.cpu_prev == sample
                &&& after.view.cpu as int == (match busy_percent(
                    self.cpu_prev,
                    sample,
                ) {
                    Some(percent) => percent,
                    None => self.view.cpu as int,
                })
            },
            None => after.cpu_prev == self.cpu_prev && after.view.cpu == self.view.cpu,
        }
        &&& (after.view.mem, after.view.swap) == (match mem {
            Some(pair) => pair,
            None => (self.view.mem, self.view.swap),
        })
        &&& r == (after.view != self.view)
    }

    /// Takes in a reading of the processor's times and of the memory's use, or
    /// their failure, and keeps the last known value of what could not be
    /// read. Answers whether what the dials show changed.
    pub fn update(&mut self, cpu: Option<(u64, u64)>, mem: Option<(u8, u8)>) -> (r: bool)
        ensures
            old(self).reading_leads_to(cpu, mem, final(self), r),
    {
        let percent: u8 = match cpu {
            Some(sample) => {
                self.cpu_read_failing = false;
                let percent: u8 = match cpu_percent(self.cpu_prev, sample) {
                    Some(percent) => percent,
                    None => self.view.cpu,
                };
                self.cpu_prev = sample;
                percent
            },
            None => {
                self.cpu_read_failing = true;
                self.view.cpu
            },
        };
        let (mem, swap) = match mem {
            Some(pair) => {
                self.mem_read_failing = false;
                pair
            },
            None => {
                self.mem_read_failing = true;
                (self.view.mem, self.view.swap)
            },
        };
        let view = GaugeView { cpu: percent, mem, swap };
        if view == self.view {
            return false;
        }
        self.view = view;
        true
    }

    /// The face of a dial: its rim and its disc.
    pub fn face(i: usize) -> (r: Vec<Shape>)
        requires
            i < GAUGE_COUNT,
        ensures
            shape_views(r@) == face_of(i as int),
    {
        let left: isize = (i * 64) as isize;
        let mut out: Vec<Shape> = Vec::new();
        let center: isize = left + 28;
        out.push(Shape::Disc { x: center, y: 28, radius_x: 28, radius_y: 28, color: GUNMETAL });
        out.push(Shape::Disc { x: center, y: 28, radius_x: 26, radius_y: 26, color: CREAM });
        assert(shape_views(out@) =~= face_of(i as int));
        out
    }

    /// What stands over a dial's needle: the hub, the percents in the dead
    /// zone under it, and the label below.
    pub fn readout(&self, i: usize) -> (r: Vec<Shape>)
        requires
            i < GAUGE_COUNT,
            self.cell_h <= span(),
        ensures
            shape_views(r@) == readout_of(i as int, self.shown(i as int), self.cell_h as int),
    {
        let left: isize = (i * 64) as isize;
        let percent: u8 = match i {
            0 => self.view.cpu,
            1 => self.view.mem,
            _ => self.view.swap,
        };
        let mut readout = decimal_chars(percent as u64);
        readout.push('%');
        let taken: usize = self.cell_h + 4;
        let readout_y: isize = if taken < GAUGE_D {
            (GAUGE_D - taken) as isize
        } else {
            0
        };
        let name = match i {
            0 => "CPU",
            1 => "MEM",
            _ => "SWP",
        };
        let mut out: Vec<Shape> = Vec::new();
        out.push(Shape::Disc { x: left + 28, y: 28, radius_x: 2, radius_y: 2, color: BLACK });
        out.push(
            Shape::Centered {
                font: 0,
                text: from_chars(&readout),
                left,
                width: GAUGE_D,
                y: readout_y,
                color: BLACK,
            },
        );
        out.push(
            Shape::Centered {
                font: 0,
                text: name.to_owned(),
                left,
                width: GAUGE_D,
                y: (GAUGE_D + LABEL_GAP) as isize,
                color: CREAM,
            },
        );
        assert(shape_views(out@) =~= readout_of(
            i as int,
            self.shown(i as int),
            self.cell_h as int,
        ));
        out
    }

    /// What the dial at a place shows.
    pub open spec fn shown(&self, i: int) -> nat {
        if i == 0 {
            self.view.cpu as nat
        } else if i == 1 {
            self.view.mem as nat
        } else {
            self.view.swap as nat
        }
    }
}

/// A dial's rim and disc. A dial and the gap after it take 64 columns.
pub open spec fn face_of(i: int) -> Seq<ShapeView> {
    let center = i * 64 + 28;
    seq![
        ShapeView::Disc { x: center, y: 28, radius_x: 28, radius_y: 28, color: GUNMETAL },
        ShapeView::Disc { x: center, y: 28, radius_x: 26, radius_y: 26, color: CREAM },
    ]
}

pub open spec fn readout_of(i: int, percent: nat, cell_h: int) -> Seq<ShapeView> {
    let left = i * 64;
    seq![
        ShapeView::Disc { x: left + 28, y: 28, radius_x: 2, radius_y: 2, color: BLACK },
        ShapeView::Centered {
            font: 0,
            text: decimal(percent).push('%'),
            left,
            width: GAUGE_D as int,
            y: if cell_h + 4 < GAUGE_D {
                GAUGE_D - cell_h - 4
            } else {
                0
            },
            color: BLACK,
        },
        ShapeView::Centered {
            font: 0,
            text: label(i),
            left,
            width: GAUGE_D as int,
            y: GAUGE_D + LABEL_GAP,
            color: CREAM,
        },
    ]
}

/// The counters of a line are the numbers among its words but the first, in order,
/// and their sum is their sum.
pub proof fn lemma_counters_are(words: Seq<Seq<char>>, word: Seq<char>, vals: Seq<nat>, n: nat)
    ensures
        words.len() <= 1 ==> counters(words).len() == 0,
        words.len() > 0 ==> counters(words.push(word)) == counters(words) + (match unsigned_value(
            word,
            u64::MAX as nat,
        ) {
            Some(n) => seq![n],
            None => Seq::empty(),
        }),
        total(Seq::empty()) == 0,
        total(vals.push(n)) == total(vals) + n,
{
    assert(words.push(word).drop_last() =~= words);
    assert(vals.push(n).drop_last() =~= vals);
    if words.len() > 0 {
        assert(counters(words.push(word)) =~= counters(words) + (match unsigned_value(
            word,
            u64::MAX as nat,
        ) {
            Some(n) => seq![n],
            None => Seq::empty(),
        }));
    }
}

/// The processor's times are all counters together and, of these, the idle one and
/// the one that waits; with fewer than four there are none.
pub proof fn lemma_cpu_times_are(vals: Seq<nat>)
    ensures
        vals.len() < 4 ==> cpu_times(vals) is None,
        vals.len() == 4 ==> cpu_times(vals) == Some((total(vals), vals[3])),
        vals.len() > 4 ==> cpu_times(vals) == Some((total(vals), vals[3] + vals[4])),
{
}

/// What was busy is the share of the time that passed in which the processor was
/// not idle, in percent and rounded down. When no time has passed nothing is known.
pub proof fn lemma_busy_percent_is(prev: (u64, u64), cur: (u64, u64))
    ensures
        cur.0 <= prev.0 ==> busy_percent(prev, cur) is None,
        cur.0 > prev.0 ==> (busy_percent(prev, cur) matches Some(p) && 0 <= p <= 100),
        cur.0 > prev.0 && cur.1 <= prev.1 ==> busy_percent(prev, cur) == Some(100int),
        cur.0 > prev.0 && cur.1 - prev.1 >= cur.0 - prev.0 ==> busy_percent(prev, cur) == Some(
            0int,
        ),
        cur.0 > prev.0 && 0 <= cur.1 - prev.1 <= cur.0 - prev.0 ==> ({
            let passed = cur.0 - prev.0;
            let busy = passed - (cur.1 - prev.1);
            busy_percent(prev, cur) matches Some(p) && p * passed <= 100 * busy < (p + 1) * passed
        }),
{
    if cur.0 > prev.0 {
        let passed = cur.0 - prev.0;
        let idle = if cur.1 <= prev.1 {
            0
        } else if cur.1 - prev.1 < passed {
            cur.1 - prev.1
        } else {
            passed
        };
        lemma_percent(passed - idle, passed);
    }
}

proof fn lemma_percent(part: int, whole: int)
    requires
        0 <= part <= whole,
        0 < whole,
    ensures
        0 <= 100 * part / whole <= 100,
        (100 * part / whole) * whole <= 100 * part < (100 * part / whole + 1) * whole,
        part == whole ==> 100 * part / whole == 100,
        part == 0 ==> 100 * part / whole == 0,
{
    let q = 100 * part / whole;
    vstd::arithmetic::div_mod::lemma_fundamental_div_mod(100 * part, whole);
    vstd::arithmetic::div_mod::lemma_mod_bound(100 * part, whole);
    assert(q * whole == whole * q) by (nonlinear_arith);
    assert((q + 1) * whole == q * whole + whole) by (nonlinear_arith);
    assert(0 <= q <= 100) by (nonlinear_arith)
        requires
            q * whole <= 100 * part,
            100 * part < q * whole + whole,
            0 <= part <= whole,
            0 < whole,
    ;
    assert(part == whole ==> q == 100) by (nonlinear_arith)
        requires
            100 * part < q * whole + whole,
            q <= 100,
            0 < whole,
    ;
    assert(part == 0 ==> q == 0) by (nonlinear_arith)
        requires
            q * whole <= 100 * part,
            0 <= q,
            0 < whole,
    ;
}

/// What is used is the share of the whole that is not free, in percent and rounded
/// down.
pub proof fn lemma_used_percent_is(total: int, free: int)
    requires
        0 <= free,
        0 <= total,
    ensures
        0 <= used_percent(total, free) <= 100,
        free >= total ==> used_percent(total, free) == 0,
        total > 0 ==> used_percent(total, 0) == 100,
        0 < total && free <= total ==> used_percent(total, free) * total <= 100 * (total - free) < (
        used_percent(total, free) + 1) * total,
{
    if total > 0 {
        lemma_percent(total, total);
        if free <= total {
            lemma_percent(total - free, total);
        }
    }
}

/// A number by its key is the second word of the first line that begins with it.
pub proof fn lemma_keyed_number_is(text: Seq<char>, key: Seq<char>, i: int)
    requires
        0 <= i <= lines_of(text).len(),
        forall|j: int|
            0 <= j < i ==> !starts_with(#[trigger] lines_of(text)[j], key),
    ensures
        i == lines_of(text).len() ==> keyed_number(text, key) is None,
        i < lines_of(text).len() && starts_with(lines_of(text)[i], key) ==> ({
            let words = words_of(lines_of(text)[i]);
            &&& words.len() <= 1 ==> keyed_number(text, key) is None
            &&& words.len() > 1 ==> keyed_number(text, key) == unsigned_value(
                words[1],
                u64::MAX as nat,
            )
        }),
{
    let lines = lines_of(text);
    let holds = |line: Seq<char>| starts_with(line, key);
    crate::chars::lemma_first_matching(lines, holds, i);
}

/// The memory's and the swap's use are told together, each from its own two
/// numbers, and only when all four are there.
pub proof fn lemma_memory_use_is(text: Seq<char>)
    ensures
        memory_use(text) matches Some((mem, swap)) ==> (keyed_number(
            text,
            "MemTotal:"@,
        ) matches Some(t) && (keyed_number(text, "MemAvailable:"@) matches Some(f) && mem
            == used_percent(t as int, f as int))) && (keyed_number(
            text,
            "SwapTotal:"@,
        ) matches Some(t) && (keyed_number(text, "SwapFree:"@) matches Some(f) && swap
            == used_percent(t as int, f as int))),
        memory_use(text) is None ==> keyed_number(text, "MemTotal:"@) is None || keyed_number(
            text,
            "MemAvailable:"@,
        ) is None || keyed_number(text, "SwapTotal:"@) is None || keyed_number(text, "SwapFree:"@)
            is None,
{
}

/// The three dials, sixty-four columns apart, show the processor's, the memory's
/// and the swap's use, each with its number and its name below.
pub proof fn lemma_dials_are(gauges: &Gauges, i: int, percent: nat, cell_h: int)
    requires
        0 <= i < 3,
        0 <= cell_h <= 52,
    ensures
        label(0) == "CPU"@ && gauges.shown(0) == gauges.view.cpu,
        label(1) == "MEM"@ && gauges.shown(1) == gauges.view.mem,
        label(2) == "SWP"@ && gauges.shown(2) == gauges.view.swap,
        face_of(i).len() == 2,
        face_of(i)[0] == (ShapeView::Disc {
            x: 28 + 64 * i,
            y: 28,
            radius_x: 28,
            radius_y: 28,
            color: 1,
        }),
        face_of(i)[1] == (ShapeView::Disc {
            x: 28 + 64 * i,
            y: 28,
            radius_x: 26,
            radius_y: 26,
            color: 5,
        }),
        readout_of(i, percent, cell_h).len() == 3,
        readout_of(i, percent, cell_h)[0] == (ShapeView::Disc {
            x: 28 + 64 * i,
            y: 28,
            radius_x: 2,
            radius_y: 2,
            color: 15,
        }),
        readout_of(i, percent, cell_h)[1] == (ShapeView::Centered {
            font: 0,
            text: decimal(percent) + seq!['%'],
            left: 64 * i,
            width: 56,
            y: 52 - cell_h,
            color: 15,
        }),
        readout_of(i, percent, cell_h)[2] == (ShapeView::Centered {
            font: 0,
            text: label(i),
            left: 64 * i,
            width: 56,
            y: 59,
            color: 5,
        }),
{
    assert(decimal(percent).push('%') =~= decimal(percent) + seq!['%']);
}

/// New readings are shown: the processor's from the change since the last one,
/// where time has passed, the memory's and the swap's as they are. What could not
/// be read stays as it was. It says whether anything changed.
pub proof fn lemma_readings_lead(
    gauges: &Gauges,
    cpu: Option<(u64, u64)>,
    mem: Option<(u8, u8)>,
    after: &Gauges,
    r: bool,
)
    requires
        gauges.reading_leads_to(cpu, mem, after, r),
    ensures
        cpu is None ==> after.view.cpu == gauges.view.cpu && after.cpu_prev == gauges.cpu_prev
            && after.cpu_read_failing,
        cpu matches Some(now) ==> after.cpu_prev == now && !after.cpu_read_failing && (busy_percent(
            gauges.cpu_prev,
            now,
        ) matches Some(p) ==> after.view.cpu == p) && (busy_percent(gauges.cpu_prev, now) is None
            ==> after.view.cpu == gauges.view.cpu),
        mem is None ==> after.view.mem == gauges.view.mem && after.view.swap == gauges.view.swap
            && after.mem_read_failing,
        mem matches Some((used, swapped)) ==> after.view.mem == used && after.view.swap == swapped
            && !after.mem_read_failing,
        r <==> after.view != gauges.view,
{
}

/// Gauges start with what was read of the processor and the memory, the processor's at
/// zero; what could not be read counts as zero.
pub proof fn lemma_gauges_start(
    cell_h: usize,
    cpu: Option<(u64, u64)>,
    mem: Option<(u8, u8)>,
    r: Gauges,
)
    requires
        Gauges::starts(cell_h, cpu, mem, r),
    ensures
        r.cell_h == cell_h,
        r.view.cpu == 0,
        cpu matches Some((busy, total)) ==> r.cpu_prev.0 == busy && r.cpu_prev.1 == total,
        cpu is None ==> r.cpu_prev.0 == 0 && r.cpu_prev.1 == 0,
        mem matches Some((used, swapped)) ==> r.view.mem == used && r.view.swap == swapped,
        mem is None ==> r.view.mem == 0 && r.view.swap == 0,
        !r.cpu_read_failing && !r.mem_read_failing,
{
}

} // verus!
