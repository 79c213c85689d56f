//! The calendar, the gauges, the pet, the chart, the candle, emoji and paths.
use cozyui::day::{calendar_row_week, date_parts, weekday_of, DateState, Day};
use cozyui::emojimap::{char_to_ascii, emoji_to_ascii, replace_emoji};
use cozyui::fizzle::{battery_dir, battery_reading, CandleArt, Fizzle, Size, Supply};
use cozyui::gauges::{
    counters_fit, cpu_percent, cpu_times_from_line, mem_percents, meminfo_kb, percent_used, Gauges,
};
use cozyui::hunger::{
    fallback_meal, fmt_countdown, meal_time, meal_window, next_meal, prev_meal, render_view,
    EatenThrough, Hunger, APPLES, MEALS_PER_DAY,
};
use cozyui::localtime::{civil_from_days, days_from_civil, days_in_month, iso_week_number, Tm};
use cozyui::paths::{
    config_dir, config_file, config_first_line, config_places, expand_tilde, join_path,
};
use cozyui::scene::Shape;
use cozyui::stats::{
    segment_heights, week_paths, DayFile, Fingerprint, Stats, MIN_SEGMENT_H, PRIORITY_COUNT,
};

#[test]
fn trailing_lone_sunday_row_has_no_week_label() {
    let first_day_epoch = days_from_civil(2026, 5, 1);
    assert_eq!(calendar_row_week(first_day_epoch, 31, 4), Some(22));
    assert_eq!(calendar_row_week(first_day_epoch, 31, 5), None);
}

#[test]
fn basic_lookups() {
    assert_eq!(emoji_to_ascii("🙂"), Some(":)"));
    assert_eq!(emoji_to_ascii("😆"), Some("XD"));
    assert_eq!(emoji_to_ascii("❤"), Some("<3"));
    assert_eq!(emoji_to_ascii("💔"), Some("</3"));
    assert_eq!(emoji_to_ascii("foo"), None);
}

#[test]
fn replace_inline() {
    assert_eq!(replace_emoji("hi 🙂"), "hi :)");
    assert_eq!(replace_emoji("😭😭😭"), "D;D;D;");
    assert_eq!(replace_emoji("hi 🌞"), "hi :sun_with_face:");
    assert_eq!(replace_emoji("plain text"), "plain text");
}

#[test]
fn replace_drops_variation_selector() {
    assert_eq!(replace_emoji("❤\u{FE0F}"), "<3");
}

#[test]
fn all_values_are_ascii() {
    let mut mapped = 0;
    for code in 0..0x11_0000u32 {
        if let Some(value) = char::from_u32(code).and_then(char_to_ascii) {
            assert!(value.is_ascii(), "non-ASCII value: {value:?}");
            mapped += 1;
        }
    }
    assert!(mapped > 20);
}

#[test]
fn parses_meminfo_fields() {
    let text = "MemTotal:       16000000 kB\nMemAvailable:    4000000 kB\nSwapTotal:             0 kB\nSwapFree:              0 kB\n";
    assert_eq!(meminfo_kb(text, "MemTotal:"), Some(16_000_000));
    assert_eq!(meminfo_kb(text, "MemAvailable:"), Some(4_000_000));
    assert_eq!(meminfo_kb(text, "Missing:"), None);
}

#[test]
fn percent_used_handles_zero_total() {
    assert_eq!(percent_used(0, 0), 0);
    assert_eq!(percent_used(16, 4), 75);
}

#[test]
fn cpu_line_parses_total_and_idle() {
    let line = "cpu  100 0 50 800 50 0 0";
    assert_eq!(cpu_times_from_line(line), Some((1000, 850)));
}

#[test]
fn cpu_percent_uses_the_delta() {
    assert_eq!(cpu_percent((1000, 850), (2000, 1700)), Some(15));
    assert_eq!(cpu_percent((2000, 1700), (2000, 1700)), None);
    assert_eq!(cpu_percent((2000, 1700), (1000, 850)), None);
}

#[test]
fn gauges_keep_their_reading_when_none_comes() {
    let text = "MemTotal: 100 kB\nMemAvailable: 25 kB\nSwapTotal: 10 kB\nSwapFree: 5 kB\n";
    assert_eq!(mem_percents(text), Some((75, 50)));
    assert_eq!(mem_percents("MemTotal: 100 kB\n"), None);
    assert!(counters_fit("cpu 1 2 3"));
    assert!(!counters_fit("cpu 18446744073709551615 1"));
    let mut gauges = Gauges::load(8, Some((1000, 850)), Some((10, 20)));
    assert!(gauges.update(Some((2000, 1700)), Some((75, 50))));
    assert_eq!((gauges.view.cpu, gauges.view.mem, gauges.view.swap), (15, 75, 50));
    gauges.update(None, None);
    assert_eq!((gauges.view.cpu, gauges.view.mem, gauges.view.swap), (15, 75, 50));
}

const SECOND: i64 = 1000;
const HOUR: i64 = 3600 * SECOND;
const DAY: i64 = 24 * HOUR;

/// The midnight of the day of these tests, in milliseconds.
fn midnight() -> i64 {
    days_from_civil(2026, 6, 15) * DAY
}

/// The meals of the day a number of days from that one.
fn meals_for_day(day_offset: i32) -> Vec<i64> {
    let tm = Tm { tm_year: 126, tm_mon: 5, tm_mday: 15, ..Tm::default() };
    (0..MEALS_PER_DAY)
        .map(|i| {
            let time = meal_time(&tm, day_offset, i);
            let day = days_from_civil(time.year, time.mon + 1, time.mday);
            day * DAY + i64::from(time.hour) * HOUR + i64::from(time.min) * 60 * SECOND
        })
        .collect()
}

/// The meals of five days around it.
fn meals() -> Vec<i64> {
    (-2..=2).flat_map(meals_for_day).collect()
}

#[test]
fn five_meals_span_the_window() {
    let m = meals_for_day(0);
    assert_eq!(m.len(), 5);
    assert_eq!(m[0], midnight() + 8 * HOUR);
    assert_eq!(m[4], midnight() + 21 * HOUR);
    assert_eq!(m[1] - m[0], 13 * HOUR / 4);
}

#[test]
fn full_just_after_a_meal_empty_at_the_next() {
    let first = meals_for_day(0)[0];
    let (target, span) = meal_window(&meals(), EatenThrough::at_or_before(&meals(), first));
    let view = render_view(target, span, first + SECOND);
    assert_ne!(view.fill, 0);
    assert_eq!(view.fill, APPLES * 4);
    let empty = render_view(target, span, target);
    assert_eq!(empty.fill, 0);
    assert_eq!(empty.label, "EAT!");
}

#[test]
fn next_and_prev_meal_bracket_now() {
    for now in [midnight(), midnight() + 9 * HOUR, midnight() + 23 * HOUR + 7] {
        assert!(prev_meal(&meals(), now) <= now);
        assert!(next_meal(&meals(), now) > now);
        assert!(next_meal(&meals(), now) - prev_meal(&meals(), now) <= DAY);
    }
}

#[test]
fn countdown_formats_hours_and_minutes() {
    assert_eq!(fmt_countdown(3661 * SECOND), "1:01:01");
    assert_eq!(fmt_countdown(125 * SECOND), "2:05");
}

#[test]
fn meal_math_is_consistent_for_non_now_timestamps() {
    let meal = meals_for_day(0)[1];
    assert_eq!(prev_meal(&meals(), meal), meal);
    let after = next_meal(&meals(), meal);
    assert_eq!(after - meal, 13 * HOUR / 4);
}

#[test]
fn eaten_through_rejects_implausible_future_timestamps() {
    let now = midnight() + 10 * HOUR;
    assert!(EatenThrough::new(now + 30 * DAY, now).is_none());
    assert!(EatenThrough::new(now, now).is_some());
}

#[test]
fn meals_without_a_wall_clock_go_by_utc() {
    assert_eq!(fallback_meal(midnight() / 1000 + 5, 0, 0), midnight() + 8 * HOUR);
    assert_eq!(fallback_meal(midnight() / 1000 + 5, 1, 4), midnight() + DAY + 21 * HOUR);
}

#[test]
fn eating_fills_the_bar() {
    let now = midnight() + 9 * HOUR;
    let apple = Size { w: 10, h: 10 };
    let mut hunger = Hunger::load(apple, 8, Some(midnight() - DAY), &meals(), now);
    assert!(hunger.is_empty());
    let eaten = hunger.click(&meals(), now).unwrap();
    assert_eq!(eaten.get(), midnight() + 8 * HOUR);
    hunger.eat(eaten, &meals(), now);
    assert!(!hunger.is_empty());
    assert!(hunger.update(now + 2 * HOUR));
}

#[test]
fn civil_round_trips() {
    let days = days_from_civil(2026, 6, 28);
    assert_eq!(civil_from_days(days), (2026, 6, 28));
    assert_eq!(civil_from_days(days - 1), (2026, 6, 27));
}

#[test]
fn dates_are_known_days() {
    assert_eq!(days_from_civil(1970, 1, 1), 0);
    assert_eq!(civil_from_days(-1), (1969, 12, 31));
    assert_eq!(days_in_month(2024, 2), 29);
    assert_eq!(days_in_month(2026, 2), 28);
    assert_eq!(iso_week_number(days_from_civil(2026, 1, 1)), 1);
    assert_eq!(iso_week_number(days_from_civil(2027, 1, 1)), 53);
    assert_eq!(weekday_of(days_from_civil(2026, 6, 28)), 0);
}

#[test]
fn the_calendar_page_names_its_day() {
    let tm = Tm { tm_year: 126, tm_mon: 5, tm_mday: 28, tm_wday: 0, ..Tm::default() };
    let parts = date_parts(&tm);
    assert_eq!(parts.year, "2026");
    assert_eq!(parts.day, "28");
    assert_eq!(parts.month_index, 5);
    let mut day = Day::load(None);
    assert!(matches!(day.date, DateState::Unknown));
    assert!(day.update(Some(tm)));
    assert!(!day.update(Some(tm)));
    assert!(!day.calendar_mode);
    day.toggle_mode();
    assert!(day.calendar_mode);
}

#[test]
fn segment_heights_never_exceeds_chart_h() {
    let heights = segment_heights(&[80, 1, 1, 1], 83, 85);
    assert_eq!(heights.iter().sum::<usize>(), 85);
    assert!(heights.iter().all(|&h| h >= MIN_SEGMENT_H));
}

#[test]
fn segment_heights_floors_a_visible_sliver_for_every_nonzero_count() {
    let heights = segment_heights(&[1, 1, 1, 1], 1000, 80);
    assert_eq!(heights, [MIN_SEGMENT_H; PRIORITY_COUNT]);
}

#[test]
fn segment_heights_is_all_zero_when_nothing_completed() {
    assert_eq!(segment_heights(&[0, 0, 0, 0], 0, 80), [0; PRIORITY_COUNT]);
}

#[test]
fn the_chart_counts_the_files_of_a_week() {
    let tm = Tm { tm_year: 126, tm_mon: 5, tm_mday: 28, tm_wday: 0, ..Tm::default() };
    let paths = week_paths("/r", &tm);
    assert_eq!(paths.len(), 28);
    assert!(paths[0].contains("2026"));
    let mut stats = Stats::new();
    let print = Fingerprint { inode: 1, len: 2, modified_secs: 3, modified_nanos: 4 };
    assert!(stats.needs_count(0, &paths[0], Some(print)));
    let files: Vec<DayFile> = paths
        .iter()
        .enumerate()
        .map(|(i, path)| DayFile { path: path.clone(), id: Some(print), count: i })
        .collect();
    assert!(stats.commit(files));
    assert!(!stats.needs_count(0, &paths[0], Some(print)));
    assert_eq!(stats.counts[0], [0, 1, 2, 3]);
    assert_eq!(stats.counts[6], [24, 25, 26, 27]);
}

#[test]
fn a_tall_font_leaves_slivers() {
    let mut stats = Stats::new();
    stats.counts[0] = [1, 1, 1, 1];
    let bars = |cell_h: usize| -> Vec<(isize, usize)> {
        stats
            .shapes(cell_h)
            .iter()
            .filter_map(|shape| match shape {
                Shape::Fill { y, h, .. } => Some((*y, *h)),
                _ => None,
            })
            .collect()
    };
    // 93 rows lie above the initials, 7 of them for the bars.
    assert_eq!(bars(35), vec![(92, 1), (90, 2), (88, 2), (86, 2)]);
    // No row is left, and of four slivers three stay.
    assert_eq!(bars(60), vec![(66, 2), (64, 2), (62, 2)]);
}

#[test]
fn neighbouring_meals_have_none_between_them() {
    for now in [midnight(), midnight() + 9 * HOUR, midnight() + 23 * HOUR + 7] {
        let (before, after) = (prev_meal(&meals(), now), next_meal(&meals(), now));
        assert!(meals().iter().all(|&meal| meal <= before || meal >= after));
        assert_eq!(prev_meal(&meals(), after), after);
    }
}

#[test]
fn the_candle_burns_with_the_battery() {
    assert_eq!(battery_reading("87\n", "Discharging\n"), Some((87, true)));
    assert_eq!(battery_reading("87", "Charging"), Some((87, false)));
    assert_eq!(battery_reading("x", "Charging"), None);
    let supply = |name: &str, kind: Option<&str>| Supply {
        name: name.to_string(),
        kind: kind.map(str::to_string),
    };
    let supplies =
        vec![supply("hidpp_0", Some("Battery\n")), supply("BAT1", Some("Battery\n"))];
    assert_eq!(battery_dir(&supplies), Some(1));
    assert_eq!(battery_dir(&vec![]), None);
    let size = Size { w: 10, h: 10 };
    let art = CandleArt {
        base: size,
        middle: size,
        top_lit: size,
        top_unlit: size,
        top_full: size,
        low: size,
    };
    let mut candle = Fizzle::load(art, Some((50, true)));
    let half = candle.wax_height();
    assert!(candle.update(Some((90, true))));
    assert!(candle.wax_height() > half);
    assert!(!candle.update(Some((90, true))));
}

#[test]
fn configuration_files_have_two_places() {
    assert_eq!(expand_tilde("~/a", Some("/h")), "/h/a");
    assert_eq!(expand_tilde("/a", Some("/h")), "/a");
    assert_eq!(join_path("/a", "b"), "/a/b");
    assert!(config_dir(Some("/x"), Some("/h")).starts_with("/x"));
    assert!(config_dir(None, Some("/h")).starts_with("/h"));
    let places = config_places("/c", "/dev", "a.conf");
    let (own, _) = config_file(places, true, true);
    assert!(own.starts_with("/c"));
    let places = config_places("/c", "/dev", "a.conf");
    let (dev, _) = config_file(places, false, true);
    assert!(dev.starts_with("/dev"));
    assert_eq!(config_first_line(Some("# x\n\n ~/d \n"), "/e", Some("/h")), "/h/d");
    assert_eq!(config_first_line(None, "/e", Some("/h")), "/e");
}
