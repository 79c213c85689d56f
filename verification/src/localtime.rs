//! Civil dates and the days between them.
use vstd::prelude::*;

verus! {

/// The fields of a wall clock: `tm_mon` counts from January as 0, `tm_year`
/// from 1900, `tm_wday` from Sunday as 0.
#[derive(Clone, Copy, PartialEq, Eq, Structural, Debug)]
pub struct Tm {
    pub tm_min: i32,
    pub tm_hour: i32,
    pub tm_mday: i32,
    pub tm_mon: i32,
    pub tm_year: i32,
    pub tm_wday: i32,
}

impl Default for Tm {
    fn default() -> (r: Self)
        ensures
            r == (Tm { tm_min: 0, tm_hour: 0, tm_mday: 0, tm_mon: 0, tm_year: 0, tm_wday: 0 }),
    {
        Tm { tm_min: 0, tm_hour: 0, tm_mday: 0, tm_mon: 0, tm_year: 0, tm_wday: 0 }
    }
}

/// The Gregorian leap years.
pub open spec fn leap(y: int) -> bool {
    y % 4 == 0 && (y % 100 != 0 || y % 400 == 0)
}

/// The leap days up to the end of a year, counted from year 1 on.
pub open spec fn leap_days(y: int) -> int {
    y / 4 - y / 100 + y / 400
}

/// The days from the start of year 1 to the start of a year.
pub open spec fn days_before_year(y: int) -> int {
    365 * (y - 1) + leap_days(y - 1)
}

pub open spec fn month_length(y: int, m: int) -> int {
    if m == 2 {
        if leap(y) {
            29
        } else {
            28
        }
    } else if m == 4 || m == 6 || m == 9 || m == 11 {
        30
    } else {
        31
    }
}

/// The days of a year before a month.
pub open spec fn days_before_month(y: int, m: int) -> int
    decreases m,
{
    if m <= 1 {
        0
    } else {
        days_before_month(y, m - 1) + month_length(y, m - 1)
    }
}

/// Days since 1970-01-01.
pub open spec fn epoch_day(y: int, m: int, d: int) -> int {
    days_before_year(y) + days_before_month(y, m) + d - 1 - days_before_year(1970)
}

/// A day that the calendar has.
pub open spec fn valid_date(y: int, m: int, d: int) -> bool {
    1 <= m <= 12 && 1 <= d <= month_length(y, m)
}

/// The weekday of an epoch day; 0 is Sunday.
pub open spec fn weekday(day: int) -> int {
    (day + 4) % 7
}

proof fn lemma_months(y: int)
    ensures
        days_before_month(y, 1) == 0,
        days_before_month(y, 2) == 31,
        days_before_month(y, 3) == (if leap(y) {
            60int
        } else {
            59
        }),
        days_before_month(y, 4) == days_before_month(y, 3) + 31,
        days_before_month(y, 5) == days_before_month(y, 3) + 61,
        days_before_month(y, 6) == days_before_month(y, 3) + 92,
        days_before_month(y, 7) == days_before_month(y, 3) + 122,
        days_before_month(y, 8) == days_before_month(y, 3) + 153,
        days_before_month(y, 9) == days_before_month(y, 3) + 184,
        days_before_month(y, 10) == days_before_month(y, 3) + 214,
        days_before_month(y, 11) == days_before_month(y, 3) + 245,
        days_before_month(y, 12) == days_before_month(y, 3) + 275,
        days_before_month(y, 13) == days_before_month(y, 3) + 306,
{
    reveal_with_fuel(days_before_month, 14);
}

/// A year has a leap day more than 365 exactly when it is a leap year.
pub proof fn lemma_year_length(y: int)
    ensures
        days_before_year(y + 1) == days_before_year(y) + (if leap(y) {
            366int
        } else {
            365
        }),
        days_before_month(y, 13) == (if leap(y) {
            366int
        } else {
            365
        }),
{
    lemma_months(y);
    let (a, b, c) = (y / 4, y / 100, y / 400);
    assert((y - 1) / 4 == (if y % 4 == 0 {
        a - 1
    } else {
        a
    }));
    assert((y - 1) / 100 == (if y % 100 == 0 {
        b - 1
    } else {
        b
    }));
    assert((y - 1) / 400 == (if y % 400 == 0 {
        c - 1
    } else {
        c
    }));
    assert(y % 100 == 0 ==> y % 4 == 0);
    assert(y % 400 == 0 ==> y % 100 == 0);
}

/// The day count of a year that starts in March, in the form in which it is
/// computed.
proof fn lemma_march_year(y: int, era: int, yoe: int)
    requires
        y == 400 * era + yoe,
        0 <= yoe < 400,
    ensures
        365 * y + leap_days(y) == era * 146_097 + yoe * 365 + yoe / 4 - yoe / 100,
{
    assert(y / 4 == 100 * era + yoe / 4);
    assert(y / 100 == 4 * era + yoe / 100);
    assert(y / 400 == era);
}

proof fn lemma_epoch_from_march(y: int, m: int, d: int, shifted: int, mp: int)
    requires
        1 <= m <= 12,
        shifted == (if m <= 2 {
            y - 1
        } else {
            y
        }),
        mp == (if m > 2 {
            m - 3
        } else {
            m + 9
        }),
    ensures
        epoch_day(y, m, d) == 365 * shifted + leap_days(shifted) + (153 * mp + 2) / 5 + d - 1
            - 719_468,
{
    lemma_months(y);
    lemma_year_length(y);
}

/// Days since 1970-01-01 of a date; days past a month's end run into the next.
pub fn days_from_civil(y: i32, m: i32, d: i32) -> (r: i64)
    requires
        1 <= m <= 12,
    ensures
        r == epoch_day(y as int, m as int, d as int),
{
    let shifted: i64 = if m <= 2 {
        y as i64 - 1
    } else {
        y as i64
    };
    let era: i64 = if shifted >= 0 {
        shifted / 400
    } else {
        -((399 - shifted) / 400)
    };
    let yoe: i64 = shifted - era * 400;
    let mp: i64 = if m > 2 {
        m as i64 - 3
    } else {
        m as i64 + 9
    };
    let doy: i64 = (153 * mp + 2) / 5 + d as i64 - 1;
    let doe: i64 = yoe * 365 + yoe / 4 - yoe / 100 + doy;
    proof {
        lemma_march_year(shifted as int, era as int, yoe as int);
        lemma_epoch_from_march(y as int, m as int, d as int, shifted as int, mp as int);
    }
    era * 146_097 + doe - 719_468
}

/// The first and the last day whose year a date can hold.
pub open spec fn datable(day: int) -> bool {
    epoch_day(i32::MIN as int, 1, 1) <= day <= epoch_day(i32::MAX as int, 12, 31)
}

/// Days with a date are far from what a count of days can hold.
pub proof fn lemma_datable(day: int)
    requires
        datable(day),
    ensures
        -800_000_000_000 < day < 800_000_000_000,
{
    lemma_months(i32::MIN as int);
    lemma_months(i32::MAX as int);
}

/// The date of an epoch day: the inverse of `days_from_civil`.
#[verifier::rlimit(40)]
pub fn civil_from_days(day: i64) -> (r: (i32, i32, i32))
    requires
        datable(day as int),
    ensures
        valid_date(r.0 as int, r.1 as int, r.2 as int),
        epoch_day(r.0 as int, r.1 as int, r.2 as int) == day,
{
    proof {
        lemma_months(i32::MIN as int);
        lemma_months(i32::MAX as int);
    }
    let z: i64 = day + 719_468;
    let era: i64 = if z >= 0 {
        z / 146_097
    } else {
        -((146_096 - z) / 146_097)
    };
    let doe: i64 = z - era * 146_097;
    assert(0 <= doe < 146_097);
    let century: i64 = if doe / 36_524 > 3 {
        3
    } else {
        doe / 36_524
    };
    let in_century: i64 = doe - century * 36_524;
    let quad: i64 = in_century / 1461;
    let in_quad: i64 = in_century - quad * 1461;
    let single: i64 = if in_quad / 365 > 3 {
        3
    } else {
        in_quad / 365
    };
    let doy: i64 = in_quad - single * 365;
    let yoe: i64 = century * 100 + quad * 4 + single;
    let shifted: i64 = yoe + era * 400;
    let mp: i64 = (5 * doy + 2) / 153;
    let d: i64 = doy - (153 * mp + 2) / 5 + 1;
    let m: i64 = if mp < 10 {
        mp + 3
    } else {
        mp - 9
    };
    let y: i64 = if m <= 2 {
        shifted + 1
    } else {
        shifted
    };
    proof {
        assert(0 <= quad <= 24);
        assert(0 <= doy <= 365);
        assert(yoe / 4 == 25 * century + quad);
        assert(yoe / 100 == century);
        lemma_march_year(shifted as int, era as int, yoe as int);
        assert(0 <= mp <= 11);
        lemma_epoch_from_march(y as int, m as int, d as int, shifted as int, mp as int);
        // The year of days that starts in March ends with a leap day when the
        // civil year that it ends in has one.
        let next = shifted + 1;
        if doy == 365 {
            assert(single == 3);
            assert(quad < 24 || century == 3);
            lemma_leap_next(shifted as int, era as int, century as int, quad as int);
        }
        lemma_month_split(y as int, m as int, d as int, doy as int, mp as int, next as int);
        lemma_year_bounds(y as int, m as int, d as int);
    }
    (y as i32, m as i32, d as i32)
}

proof fn lemma_leap_next(shifted: int, era: int, century: int, quad: int)
    requires
        0 <= century <= 3,
        0 <= quad <= 24,
        quad < 24 || century == 3,
        shifted == 400 * era + 100 * century + 4 * quad + 3,
    ensures
        leap(shifted + 1),
{
    let y = shifted + 1;
    assert(y == 4 * (100 * era + 25 * century + quad + 1));
    assert(y % 4 == 0);
    if y % 100 == 0 {
        assert(y == 100 * (4 * era + century) + 4 * (quad + 1));
        assert((4 * (quad + 1)) % 100 == 0);
        assert(quad == 24);
        assert(y == 400 * (era + 1));
    }
}

proof fn lemma_month_split(y: int, m: int, d: int, doy: int, mp: int, next: int)
    requires
        0 <= doy <= 365,
        mp == (5 * doy + 2) / 153,
        d == doy - (153 * mp + 2) / 5 + 1,
        m == (if mp < 10 {
            mp + 3
        } else {
            mp - 9
        }),
        doy == 365 ==> leap(next),
        m <= 2 ==> y == next,
    ensures
        0 <= mp <= 11,
        valid_date(y, m, d),
{
    assert(mp == 0 || mp == 1 || mp == 2 || mp == 3 || mp == 4 || mp == 5 || mp == 6 || mp == 7
        || mp == 8 || mp == 9 || mp == 10 || mp == 11);
}

/// Dates in order have their days in order.
pub proof fn lemma_epoch_order(y: int, m: int, d: int, y2: int, m2: int, d2: int)
    requires
        valid_date(y, m, d),
        valid_date(y2, m2, d2),
    ensures
        epoch_day(y, m, d) < epoch_day(y2, m2, d2) <==> (y < y2 || y == y2 && (m < m2 || m == m2
            && d < d2)),
{
    if y < y2 {
        lemma_before(y, m, d, y2, m2, d2);
    } else if y2 < y {
        lemma_before(y2, m2, d2, y, m, d);
    } else {
        lemma_months(y);
    }
}

proof fn lemma_before(y: int, m: int, d: int, y2: int, m2: int, d2: int)
    requires
        valid_date(y, m, d),
        valid_date(y2, m2, d2),
        y < y2,
    ensures
        epoch_day(y, m, d) < epoch_day(y2, m2, d2),
    decreases y2 - y,
{
    lemma_months(y);
    lemma_months(y2);
    lemma_year_length(y);
    lemma_years_grow(y + 1, y2);
}

proof fn lemma_years_grow(y: int, y2: int)
    requires
        y <= y2,
    ensures
        days_before_year(y) <= days_before_year(y2),
    decreases y2 - y,
{
    if y < y2 {
        lemma_years_grow(y + 1, y2);
        lemma_year_length(y);
    }
}

proof fn lemma_year_bounds(y: int, m: int, d: int)
    requires
        valid_date(y, m, d),
        datable(epoch_day(y, m, d)),
    ensures
        i32::MIN <= y <= i32::MAX,
{
    lemma_epoch_order(y, m, d, i32::MIN as int, 1, 1);
    lemma_epoch_order(i32::MAX as int, 12, 31, y, m, d);
}

/// A day has one date: what `civil_from_days` gives for the day of a date is
/// that date.
pub proof fn lemma_date_unique(y: int, m: int, d: int, y2: int, m2: int, d2: int)
    requires
        valid_date(y, m, d),
        valid_date(y2, m2, d2),
        epoch_day(y, m, d) == epoch_day(y2, m2, d2),
    ensures
        y == y2,
        m == m2,
        d == d2,
{
    lemma_epoch_order(y, m, d, y2, m2, d2);
    lemma_epoch_order(y2, m2, d2, y, m, d);
}

/// The days of a month.
pub fn days_in_month(y: i32, m: i32) -> (r: i32)
    ensures
        r == month_length(y as int, m as int),
{
    if m == 2 {
        // A whole number of 400-year spans later, so that the year counts up
        // from zero.
        let later: i64 = y as i64 + 2_147_484_000;
        assert(later % 4 == y % 4 && later % 100 == y % 100 && later % 400 == y % 400) by {
            let k = 5_368_710int;
            assert(later == y + 400 * k);
        }
        if later % 4 == 0 && (later % 100 != 0 || later % 400 == 0) {
            29
        } else {
            28
        }
    } else if m == 4 || m == 6 || m == 9 || m == 11 {
        30
    } else {
        31
    }
}

/// The Thursday of the week, Monday to Sunday, that a day lies in.
pub open spec fn week_thursday(day: int) -> int {
    day - (day + 3) % 7 + 3
}

/// The ISO week of a day: the number of its week's Thursday among the
/// Thursdays of that Thursday's year.
pub open spec fn iso_week(day: int, week: int) -> bool {
    exists|y: int, m: int, d: int|
        #![trigger valid_date(y, m, d)]
        valid_date(y, m, d) && epoch_day(y, m, d) == week_thursday(day) && week == (week_thursday(
            day,
        ) - epoch_day(y, 1, 1)) / 7 + 1
}

pub fn iso_week_number(day: i64) -> (r: i32)
    requires
        datable(day - 3),
        datable(day + 3),
    ensures
        iso_week(day as int, r as int),
        1 <= r <= 53,
{
    proof {
        lemma_months(i32::MIN as int);
        lemma_months(i32::MAX as int);
    }
    let from_monday: i64 = if day + 3 >= 0 {
        (day + 3) % 7
    } else {
        6 - (-(day + 4)) % 7
    };
    assert(from_monday == (day + 3) % 7);
    let thursday: i64 = day - from_monday + 3;
    let (y, m, d) = civil_from_days(thursday);
    let first: i64 = days_from_civil(y, 1, 1);
    proof {
        lemma_months(y as int);
        assert(valid_date(y as int, m as int, d as int));
    }
    ((thursday - first) / 7 + 1) as i32
}

/// A day has one ISO week.
pub proof fn lemma_iso_week_unique(day: int, a: int, b: int)
    requires
        iso_week(day, a),
        iso_week(day, b),
    ensures
        a == b,
{
    let (y, m, d) = choose|y: int, m: int, d: int|
        #![trigger valid_date(y, m, d)]
        valid_date(y, m, d) && epoch_day(y, m, d) == week_thursday(day) && a == (week_thursday(day)
            - epoch_day(y, 1, 1)) / 7 + 1;
    let (y2, m2, d2) = choose|y: int, m: int, d: int|
        #![trigger valid_date(y, m, d)]
        valid_date(y, m, d) && epoch_day(y, m, d) == week_thursday(day) && b == (week_thursday(day)
            - epoch_day(y, 1, 1)) / 7 + 1;
    lemma_date_unique(y, m, d, y2, m2, d2);
}

/// Every fourth year is a leap year, but for every hundredth of which only every
/// fourth is one. The other months than February have thirty-one days where they
/// are odd up to July and even from August on, and thirty else.
pub proof fn lemma_month_lengths(y: int, m: int)
    requires
        1 <= m <= 12,
    ensures
        leap(y) <==> y % 400 == 0 || (y % 4 == 0 && y % 100 != 0),
        m != 2 ==> month_length(y, m) == 30 + (if m <= 7 {
            m % 2
        } else {
            1 - m % 2
        }),
        month_length(y, 2) == if y % 400 == 0 || (y % 4 == 0 && y % 100 != 0) {
            29int
        } else {
            28
        },
{
}

/// The days count up from the first of January 1970, a Thursday, one by one
/// through the days of a month, the months of a year and the years.
pub proof fn lemma_days_count_up(y: int, m: int, d: int, day: int)
    requires
        1 <= m < 12,
    ensures
        epoch_day(1970, 1, 1) == 0,
        epoch_day(y, m, d + 1) == epoch_day(y, m, d) + 1,
        epoch_day(y, m + 1, 1) == epoch_day(y, m, 1) + month_length(y, m),
        epoch_day(y + 1, 1, 1) == epoch_day(y, 12, 1) + 31,
        weekday(0) == 4,
        weekday(day + 1) == (if weekday(day) == 6 {
            0
        } else {
            weekday(day) + 1
        }),
        0 <= weekday(day) <= 6,
{
    lemma_year_length(y);
    reveal_with_fuel(days_before_month, 3);
    assert(days_before_month(y, 13) == days_before_month(y, 12) + month_length(y, 12));
}

/// A date is one of the calendar when its month is one of twelve and its day one of
/// that month's.
pub proof fn lemma_valid_date_is(y: int, m: int, d: int)
    ensures
        valid_date(y, m, d) ==> 1 <= m <= 12 && 1 <= d <= 31,
        1 <= m <= 12 && 1 <= d <= 28 ==> valid_date(y, m, d),
        valid_date(y, m, 29) <==> 1 <= m <= 12 && (m != 2 || y % 400 == 0 || (y % 4 == 0 && y % 100
            != 0)),
        valid_date(y, m, 30) <==> 1 <= m <= 12 && m != 2,
        valid_date(y, m, 31) <==> m == 1 || m == 3 || m == 5 || m == 7 || m == 8 || m == 10 || m
            == 12,
{
}

/// All days from a Monday to the Sunday after it are in one week, and the fourth of
/// January is in the first week of its year.
pub proof fn lemma_weeks_are(day: int, week: int, y: int)
    ensures
        iso_week(day, week) && weekday(day) != 0 ==> iso_week(day + 1, week),
        iso_week(epoch_day(y, 1, 4), 1),
{
    assert(weekday(day) != 0 ==> week_thursday(day + 1) == week_thursday(day));
    let jan4 = epoch_day(y, 1, 4);
    let t = week_thursday(jan4);
    let k = t - epoch_day(y, 1, 1);
    assert(0 <= k <= 6);
    assert(valid_date(y, 1, k + 1));
    assert(epoch_day(y, 1, k + 1) == t);
}

} // verus!
