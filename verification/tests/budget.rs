//! The budget: its configuration, ledger and figures.
use cozyui::budgit::{
    active_spans, budget_view, compute_layout, count_matches, current_period, ledger_amounts,
    matches_in, parse_date, schedule, strip_comment, Budgit, BudgetView, Config, ConfigError,
    Figures, FileSnapshot, Period, Standing,
};
use cozyui::money::{fmt_money, group_digits, reads_as_amount, split_money};
use cozyui::palette_color::{CRIMSON, LIME, ORANGE};
use cozyui::stats::Fingerprint;

const MONTH_SECS: i64 = 2_629_800;

fn burn(period: &Period) -> f64 {
    period.expenses.iter().map(|expense| expense.amount.parse::<f64>().unwrap()).sum()
}

/// Takes over a configuration, with its amounts held against the running ones.
fn reload(budgit: &mut Budgit, config: Option<Config>) -> (bool, bool) {
    let read = |config: &Config| -> Vec<f64> {
        config.amounts().iter().map(|amount| amount.parse().unwrap()).collect()
    };
    let same = config.as_ref().map_or(false, |config| read(config) == read(&budgit.config));
    budgit.reload_config(config, same)
}

fn sum_ledger(text: &str) -> f64 {
    ledger_amounts(text).iter().map(|amount| amount.parse::<f64>().unwrap()).sum()
}

/// The budget's view for periods given by their starts and monthly burns.
fn compute_view(start_balance: f64, periods: &[(i64, f64)], now: i64) -> BudgetView {
    let starts: Vec<i64> = periods.iter().map(|(start, _)| *start).collect();
    let spans = active_spans(&starts, now);
    let mut spent = 0.0;
    for (span, (_, burn)) in spans.iter().zip(periods) {
        spent += *span as f64 / MONTH_SECS as f64 * burn;
    }
    let burn = current_period(&starts, now).map_or(0.0, |i| periods[i].1);
    let remaining = start_balance - spent;
    let standing = if remaining > 0.0 {
        Standing::Positive
    } else if remaining > -100.0 {
        Standing::Low
    } else {
        Standing::Overdrawn
    };
    let days = remaining / (burn / MONTH_SECS as f64) / 86400.0;
    budget_view(&Figures {
        remaining: (remaining * 10000.0).round() as i64,
        standing,
        burn_cents: (burn * 100.0).round() as i64,
        burning: burn > 0.0,
        daily_cents: (burn / (365.25 / 12.0) * 100.0).round() as i64,
        days_left: format!("{days:.1}"),
        svgs_completed: "0.0".to_string(),
    })
}

#[test]
fn parse_splits_dated_sections() {
    let text = "\
        # comment\n\
        [2026-01-01]\n\
        Rent = 700\n\
        Phone = 30.5\n\
        \n\
        [2026-03-01]\n\
        Rent = 750\n";
    let cfg = match Config::parse(text) {
        Ok(cfg) => cfg,
        Err(_) => panic!("the text is well formed"),
    };
    assert_eq!(cfg.periods.len(), 2);
    assert!((burn(&cfg.periods[0]) - 730.5).abs() < 1e-9);
    assert_eq!(cfg.periods[0].expenses.len(), 2);
    assert_eq!(cfg.periods[0].expenses[0].label, "Rent");
    assert_eq!(cfg.periods[0].expenses[0].amount.parse::<f64>(), Ok(700.0));
    assert!((burn(&cfg.periods[1]) - 750.0).abs() < 1e-9);
}

#[test]
fn parse_sorts_periods_chronologically() {
    let text = "[2026-05-01]\nA = 5\n[2026-01-01]\nB = 1\n";
    let cfg = match Config::parse(text) {
        Ok(cfg) => cfg,
        Err(_) => panic!("the text is well formed"),
    };
    assert!(cfg.periods[0].start_secs < cfg.periods[1].start_secs);
    assert!((burn(&cfg.periods[0]) - 1.0).abs() < 1e-9);
}

#[test]
fn parse_rejects_expense_before_section() {
    assert!(matches!(
        Config::parse("Rent = 700\n"),
        Err(ConfigError::ExpenseBeforeSection)
    ));
}

#[test]
fn parse_rejects_empty_and_bad_amount() {
    assert!(matches!(Config::parse("# nothing here\n"), Err(ConfigError::NoSections)));
    let config = match Config::parse("[2026-01-01]\nRent = lots\n") {
        Ok(config) => config,
        Err(_) => panic!("a bad amount is skipped"),
    };
    assert!(config.periods[0].expenses.is_empty());
    assert!(matches!(
        Config::parse("[2026-01-01]\nRent\n"),
        Err(ConfigError::MissingEquals(_))
    ));
}

#[test]
fn parse_allows_hash_inside_label() {
    let text = "[2026-01-01]\nRepair (unit #4) = 50\n";
    let cfg = match Config::parse(text) {
        Ok(cfg) => cfg,
        Err(_) => panic!("the text is well formed"),
    };
    assert_eq!(cfg.periods[0].expenses[0].label, "Repair (unit #4)");
    assert_eq!(cfg.periods[0].expenses[0].amount.parse::<f64>(), Ok(50.0));
}

#[test]
fn strip_comment_is_not_fooled_by_a_continuation_byte() {
    assert_eq!(strip_comment("נ# = 50"), "נ# = 50");
}

#[test]
fn parse_keeps_default_on_bad_dollars_per_svg() {
    let text = "dollars per svg = oops\n[2026-01-01]\nRent = 700\n";
    let cfg = match Config::parse(text) {
        Ok(cfg) => cfg,
        Err(_) => panic!("a bad rate is skipped"),
    };
    let rate = cfg.dollars_per_svg.map_or(0.0, |rate| rate.parse::<f64>().unwrap());
    assert_eq!(rate, 0.0);
}

#[test]
fn parse_date_rejects_invalid_day_for_month() {
    assert!(parse_date("2026-02-30").is_err());
    assert!(parse_date("2026-04-31").is_err());
    assert!(parse_date("2026-02-29").is_err());
    assert!(parse_date("2024-02-29").is_ok());
}

#[test]
fn ledger_sums_signed_amounts_and_skips_header_and_comments() {
    let csv = "\
        # a comment\n\
        title,amount,date\n\
        Paycheck,2000,2026-01-15\n\
        Rent,-700,\n\
        Coffee,-4.5\n";
    assert!((sum_ledger(csv) - 1295.5).abs() < 1e-9);
}

#[test]
fn ledger_allows_hash_inside_title() {
    let csv = "Repair (unit #4),-50,2026-01-15\n";
    assert!((sum_ledger(csv) - (-50.0)).abs() < 1e-9);
}

#[test]
fn ledger_empty_is_zero_and_bad_amount_is_skipped() {
    assert_eq!(sum_ledger("title,amount,date\n"), 0.0);
    assert_eq!(sum_ledger("Rent,oops\n"), 0.0);
}

#[test]
fn compute_view_integrates_burn_piecewise() {
    let periods = [(0, 300.0), (MONTH_SECS, 600.0)];
    let view = compute_view(1000.0, &periods, 2 * MONTH_SECS);
    assert_eq!(view.dollars, "$100");
    assert_eq!(view.fraction, ".0000");
    assert_eq!(view.color, LIME);
    assert_eq!(view.monthly, "$600.00/mo");
    assert_eq!(view.days_left, "5.1d");
}

#[test]
fn compute_view_ignores_future_periods() {
    let with_future = [(0, 300.0), (MONTH_SECS, 600.0), (10 * MONTH_SECS, 9999.0)];
    let now = 2 * MONTH_SECS;
    let a = compute_view(1000.0, &with_future, now);
    let b = compute_view(1000.0, &with_future[..2], now);
    assert_eq!(a.dollars, b.dollars);
    assert_eq!(a.monthly, b.monthly);
}

#[test]
fn several_future_periods_do_not_count() {
    assert_eq!(active_spans(&vec![0, 100, 500, 900], 200), vec![100, 100, 0, 0]);
    assert_eq!(current_period(&vec![0, 100, 500, 900], 200), Some(1));
}

#[test]
fn compute_view_no_spend_before_start() {
    let view = compute_view(500.0, &[(MONTH_SECS, 600.0)], 0);
    assert_eq!(view.dollars, "$500");
}

#[test]
fn compute_view_goes_crimson_when_overdrawn() {
    let view = compute_view(0.0, &[(0, 600.0)], MONTH_SECS);
    assert_eq!(view.color, CRIMSON);
    assert_eq!(view.days_left, "0d");
}

#[test]
fn money_is_grouped_and_signed() {
    assert_eq!(group_digits(1_234_567), "1,234,567");
    assert_eq!(group_digits(999), "999");
    assert_eq!(fmt_money(-123_456), "-$1,234.56");
    assert_eq!(split_money(12_345_678), ("$1,234".to_string(), ".5678".to_string()));
    assert_eq!(split_money(-5), ("-$0".to_string(), ".0005".to_string()));
}

#[test]
fn amounts_are_read_as_floats_are() {
    for text in ["1", "-1.5", "+.5", "1e9", "2.", "inf", "NaN", "-Infinity"] {
        let chars: Vec<char> = text.chars().collect();
        assert!(reads_as_amount(&chars), "{text}");
        assert!(text.parse::<f64>().is_ok());
    }
    for text in ["", ".", "1,000", "e9", "1e", "- 1", "0x10"] {
        let chars: Vec<char> = text.chars().collect();
        assert!(!reads_as_amount(&chars), "{text}");
        assert!(text.parse::<f64>().is_err());
    }
}

#[test]
fn spans_cover_the_time_since_the_first_start() {
    let starts = vec![100, 300, 1000];
    assert_eq!(active_spans(&starts, 500), vec![200, 200, 0]);
    assert_eq!(current_period(&starts, 500), Some(1));
    assert_eq!(current_period(&starts, 50), None);
    assert_eq!(active_spans(&starts, 50), vec![0, 0, 0]);
}

#[test]
fn a_low_balance_is_orange() {
    let view = compute_view(50.0, &[(0, 100.0)], MONTH_SECS);
    assert_eq!(view.color, ORANGE);
    assert_eq!(view.dollars, "-$50");
}

#[test]
fn periods_without_a_local_start_keep_their_own() {
    let text = "[2026-05-01]\nA = 5\n[2026-01-01]\nB = 1\n";
    let config = match Config::parse(text) {
        Ok(config) => config,
        Err(_) => panic!("the text is well formed"),
    };
    let own = config.periods[0].start_secs;
    let periods = schedule(config.periods, &vec![None, Some(7)]);
    assert_eq!(periods[0].start_secs, 7);
    assert_eq!(periods[1].start_secs, own);
}

#[test]
fn config_settings_are_read_before_the_sections() {
    let text = "dollars per svg = 12.5\n[2026-01-01]\nRent = 1\n";
    match Config::parse(text) {
        Ok(config) => assert_eq!(config.dollars_per_svg.as_deref(), Some("12.5")),
        Err(error) => panic!("{}", error.message()),
    }
}

#[test]
fn errors_of_a_configuration_say_what_is_wrong() {
    match Config::parse("[2026-01-01]\nRent\n") {
        Err(error) => assert!(error.message().contains("Rent")),
        Ok(_) => panic!("a line sets nothing"),
    }
}

#[test]
fn counted_paths_are_summed_over_files() {
    assert_eq!(matches_in("/a/b.svg:3\n/c:4\n"), (7, 2));
    assert_eq!(count_matches(b"/a/b.svg:3\n"), (3, 1));
    assert_eq!(matches_in(""), (0, 0));
}

#[test]
fn the_rows_of_the_widget_follow_each_other() {
    let layout = compute_layout(8, 10, 20);
    assert!(layout.label_y < layout.balance_y);
    assert!(layout.balance_y < layout.fraction_y);
    assert!(layout.fraction_y < layout.stats_y);
    assert!(layout.stats_y < layout.height);
}

#[test]
fn files_are_read_again_only_when_they_change() {
    let print = |len| {
        Some(Fingerprint { inode: 9, len, modified_secs: 1, modified_nanos: 0 })
    };
    let unseen = || FileSnapshot { path: String::new(), fingerprint: None };
    let mut snapshot = unseen();
    assert!(snapshot.see("/a", print(3)));
    assert!(!snapshot.see("/a", print(3)));
    assert!(snapshot.see("/a", print(4)));
    assert!(snapshot.see("/b", print(4)));
    let mut budgit =
        Budgit { config: Config::default(), config_snapshot: unseen(), ledger_snapshot: unseen() };
    let first = budgit.poll_disk(Some(("/c", print(1))), Some(("/l", print(1))));
    assert!(first.config && first.ledger);
    let second = budgit.poll_disk(Some(("/c", print(1))), Some(("/l", print(2))));
    assert!(!second.config && second.ledger);
    assert_eq!(reload(&mut budgit, None), (false, false));
    let other = Config { done_dir: "/elsewhere".to_string(), ..Config::default() };
    assert_eq!(reload(&mut budgit, Some(other)), (true, true));
    assert_eq!(budgit.config.done_dir, "/elsewhere");
    let same = Config { done_dir: "/elsewhere".to_string(), ..Config::default() };
    assert_eq!(reload(&mut budgit, Some(same)), (false, false));
    let priced = Config {
        done_dir: "/elsewhere".to_string(),
        dollars_per_svg: Some("2.5".to_string()),
        ..Config::default()
    };
    assert_eq!(reload(&mut budgit, Some(priced)), (true, false));
}

#[test]
fn a_changed_expense_is_a_changed_configuration() {
    let read = |text: &str| Config::parse(text).ok();
    let mut budgit = Budgit {
        config: Config::default(),
        config_snapshot: FileSnapshot { path: String::new(), fingerprint: None },
        ledger_snapshot: FileSnapshot { path: String::new(), fingerprint: None },
    };
    assert_eq!(reload(&mut budgit, read("[2026-01-01]\nRent = 1\n")), (true, false));
    assert_eq!(reload(&mut budgit, read("[2026-01-01]\nRent = 1\n")), (false, false));
    assert_eq!(reload(&mut budgit, read("[2026-01-01]\nRent = 2\n")), (true, false));
    assert_eq!(reload(&mut budgit, read("[2026-01-02]\nRent = 2\n")), (true, false));
    assert_eq!(reload(&mut budgit, read("[2026-01-02]\nRent = 2.0\n")), (false, false));
    assert_eq!(budgit.config.periods[0].expenses[0].amount, "2.0");
    assert_eq!(reload(&mut budgit, read("[2026-01-02]\nFood = 2\n")), (true, false));
}

#[test]
fn amounts_are_listed_in_reading_order() {
    let text = "dollars per svg = 12.5\n[2026-05-01]\nB = 3\n[2026-01-01]\nRent = 1\nFood = 2\n";
    match Config::parse(text) {
        Ok(config) => assert_eq!(config.amounts(), vec!["12.5", "1", "2", "3"]),
        Err(error) => panic!("{}", error.message()),
    }
    assert_eq!(Config::default().amounts(), vec!["0"]);
}

#[test]
fn an_amount_may_stand_before_the_date_or_last() {
    assert_eq!(ledger_amounts("Milk, eggs,-5"), vec!["-5"]);
    assert_eq!(ledger_amounts("Milk, eggs,-5,2026-01-02"), vec!["-5"]);
    assert_eq!(ledger_amounts("Milk,-5"), vec!["-5"]);
    assert!(ledger_amounts("Milk,eggs").is_empty());
}

#[test]
fn a_section_added_at_the_end_takes_over_from_its_start() {
    let before = "[2026-01-01]\nRent = 1\n";
    let after = format!("{before}[2026-05-01]\nRent = 2\n");
    match (Config::parse(before), Config::parse(&after)) {
        (Ok(one), Ok(two)) => {
            assert_eq!(one.periods.len(), 1);
            assert_eq!(two.periods.len(), 2);
            assert_eq!(two.periods[0].start_secs, one.periods[0].start_secs);
            assert_eq!(two.periods[1].expenses[0].amount, "2");
        }
        _ => panic!("both texts are well formed"),
    }
}
