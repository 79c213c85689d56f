//! A live budget: a ledger's balance that expenses eat away as time passes,
//! and that finished drawings add to.
use vstd::prelude::*;
use vstd::slice::slice_subrange;

use crate::chars::{
    append_str, chars_match_ignoring_case, decimal, digit, find_char, first_place, from_chars,
    is_white_space, lemma_decimal_is, lemma_first_place, lemma_numbers_read_back, lemma_split_both,
    lemma_split_on_nonempty, lemma_split_push, lemma_trim_is, lines_chars, lines_of, parse_i32,
    parse_unsigned, same_ignoring_ascii_case, same_text, signed_value, split_chars, split_on,
    string_views, to_chars, trim, trim_chars, trim_end, trim_start, trim_start_chars,
    unsigned_value, views, white_space,
};
use crate::json::{lossy, lossy_text};
use crate::localtime::{days_from_civil, days_in_month, epoch_day, valid_date};
use crate::money::{
    dollars, fmt_money, is_amount, magnitude, money, padded, reads_as_amount, split_money,
};
use crate::palette_color::{CREAM, CRIMSON, LIME, ORANGE};
use crate::graphics::{span, Index};
use crate::scene::{shape_views, Shape, ShapeView};
use crate::stats::Fingerprint;
use crate::text::font::BitmapFont;

verus! {

pub const WIDTH: usize = 210;

pub const TOP_GAP: usize = 12;

pub const LABEL_GAP: usize = 4;

pub const FRACTION_GAP: usize = 2;

pub const STATS_GAP: usize = 14;

pub const STAT_ROW_H: usize = 12;

pub const ROW_PAD: usize = 14;

/// The folders that are scanned when the configuration names none.
pub open spec fn default_done_dir() -> Seq<char> {
    "~/Desktop/allfiles/templates/done/"@
}

pub open spec fn default_templates_dir() -> Seq<char> {
    "~/Desktop/allfiles/templates/"@
}

/// Whether a comment starts at a place inside a line: a `#` that stands alone.
pub open spec fn comment_at(raw: Seq<char>, i: int) -> bool {
    &&& 0 < i < raw.len()
    &&& raw[i] == '#'
    &&& white_space(raw[i - 1])
    &&& i + 1 == raw.len() || white_space(raw[i + 1])
}

/// How much of a line comes before its comment.
pub open spec fn said_until(raw: Seq<char>, n: int) -> bool {
    &&& 0 <= n <= raw.len()
    &&& forall|j: int| 0 <= j < n ==> !#[trigger] comment_at(raw, j)
    &&& n < raw.len() ==> comment_at(raw, n)
}

/// A line without its comment: nothing of a line that starts with `#`.
pub open spec fn uncommented(raw: Seq<char>) -> Seq<char> {
    let start = trim_start(raw);
    if start.len() > 0 && start[0] == '#' {
        Seq::empty()
    } else {
        raw.take(choose|n: int| said_until(raw, n))
    }
}

/// A line says one thing: what comes before its first comment.
pub proof fn lemma_said_until(raw: Seq<char>, n: int)
    requires
        said_until(raw, n),
    ensures
        (choose|k: int| said_until(raw, k)) == n,
{
    let k = choose|k: int| said_until(raw, k);
    if k < n {
        assert(comment_at(raw, k));
    } else if n < k {
        assert(comment_at(raw, n));
    }
}

pub fn strip_comment_chars(raw: &[char]) -> (r: &[char])
    ensures
        r@ == uncommented(raw@),
{
    let start = trim_start_chars(raw);
    if start.len() > 0 && start[0] == '#' {
        let none = slice_subrange(raw, 0, 0);
        assert(none@ =~= Seq::empty());
        return none;
    }
    let n: usize = raw.len();
    let mut i: usize = 0;
    while i < n
        invariant
            i <= n,
            n == raw@.len(),
            forall|j: int| 0 <= j < i ==> !#[trigger] comment_at(raw@, j),
            uncommented(raw@) == raw@.take(choose|k: int| said_until(raw@, k)),
        decreases n - i,
    {
        if i > 0 && raw[i] == '#' && is_white_space(raw[i - 1]) && (i + 1 == n || is_white_space(
            raw[i + 1],
        )) {
            proof {
                lemma_said_until(raw@, i as int);
            }
            let said = slice_subrange(raw, 0, i);
            assert(said@ =~= raw@.take(i as int));
            return said;
        }
        i += 1;
    }
    proof {
        lemma_said_until(raw@, n as int);
        assert(raw@.take(n as int) =~= raw@);
    }
    raw
}

/// A line without its comment.
pub fn strip_comment(raw: &str) -> (r: String)
    ensures
        r@ == uncommented(raw@),
{
    let chars = to_chars(raw);
    from_chars(strip_comment_chars(&chars))
}

pub open spec fn number_of(part: Seq<char>) -> Option<int> {
    signed_value(trim(part), i32::MIN as int, i32::MAX as int)
}

/// The date that `YYYY-MM-DD` names, if the calendar has it. What follows
/// another dash does not count.
pub open spec fn date_of(value: Seq<char>) -> Option<(int, int, int)> {
    let parts = split_on(value, '-');
    if parts.len() < 3 {
        None
    } else {
        match (number_of(parts[0]), number_of(parts[1]), number_of(parts[2])) {
            (Some(y), Some(m), Some(d)) => if valid_date(y, m, d) {
                Some((y, m, d))
            } else {
                None
            },
            _ => None,
        }
    }
}

/// A text that is no date.
pub struct BadDate {
    pub value: String,
}

pub fn parse_date(value: &str) -> (r: Result<(i32, i32, i32), BadDate>)
    ensures
        match r {
            Ok((y, m, d)) => date_of(value@) == Some((y as int, m as int, d as int)),
            Err(bad) => date_of(value@) is None && bad.value@ == value@,
        },
{
    let chars = to_chars(value);
    match read_date(&chars) {
        Some(date) => Ok(date),
        None => Err(BadDate { value: value.to_owned() }),
    }
}

fn read_date(value: &[char]) -> (r: Option<(i32, i32, i32)>)
    ensures
        match r {
            Some((y, m, d)) => date_of(value@) == Some((y as int, m as int, d as int)) && 1 <= m
                <= 12 && 1 <= d <= 31,
            None => date_of(value@) is None,
        },
{
    let parts = split_chars(value, '-');
    let ghost texts = views(parts@);
    if parts.len() < 3 {
        return None;
    }
    assert(texts[0] == parts@[0]@ && texts[1] == parts@[1]@ && texts[2] == parts@[2]@);
    match (
        parse_i32(trim_chars(&parts[0])),
        parse_i32(trim_chars(&parts[1])),
        parse_i32(trim_chars(&parts[2])),
    ) {
        (Some(y), Some(m), Some(d)) => if m >= 1 && m <= 12 && d >= 1 && d <= days_in_month(y, m) {
            Some((y, m, d))
        } else {
            None
        },
        _ => None,
    }
}

/// A monthly expense: what for, and how much, as it is written.
pub struct Expense {
    pub label: String,
    pub amount: String,
}

pub type ExpenseView = (Seq<char>, Seq<char>);

pub open spec fn expense_views(expenses: Seq<Expense>) -> Seq<ExpenseView> {
    Seq::new(expenses.len(), |i: int| (expenses[i].label@, expenses[i].amount@))
}

/// Monthly expenses that hold from a date on.
pub struct Period {
    pub year: i32,
    pub month: i32,
    pub day: i32,
    /// When the period starts, in seconds since 1970.
    pub start_secs: i64,
    pub expenses: Vec<Expense>,
}

#[verifier::ext_equal]
pub struct PeriodView {
    pub date: (int, int, int),
    pub start_secs: int,
    pub expenses: Seq<ExpenseView>,
}

impl View for Period {
    type V = PeriodView;

    open spec fn view(&self) -> PeriodView {
        PeriodView {
            date: (self.year as int, self.month as int, self.day as int),
            start_secs: self.start_secs as int,
            expenses: expense_views(self.expenses@),
        }
    }
}

pub open spec fn period_views(periods: Seq<Period>) -> Seq<PeriodView> {
    Seq::new(periods.len(), |i: int| periods[i]@)
}

/// The configuration: periods, what a finished drawing pays, and the folders
/// with drawings.
pub struct Config {
    pub periods: Vec<Period>,
    pub dollars_per_svg: Option<String>,
    pub done_dir: String,
    pub templates_dir: String,
}

#[verifier::ext_equal]
pub struct ConfigView {
    pub periods: Seq<PeriodView>,
    pub dollars_per_svg: Option<Seq<char>>,
    pub done_dir: Seq<char>,
    pub templates_dir: Seq<char>,
}

pub open spec fn optional(text: Option<String>) -> Option<Seq<char>> {
    match text {
        Some(text) => Some(text@),
        None => None,
    }
}

impl View for Config {
    type V = ConfigView;

    open spec fn view(&self) -> ConfigView {
        ConfigView {
            periods: period_views(self.periods@),
            dollars_per_svg: optional(self.dollars_per_svg),
            done_dir: self.done_dir@,
            templates_dir: self.templates_dir@,
        }
    }
}

impl Default for Config {
    fn default() -> (r: Self)
        ensures
            r@ == (ConfigView {
                periods: Seq::empty(),
                dollars_per_svg: None,
                done_dir: default_done_dir(),
                templates_dir: default_templates_dir(),
            }),
    {
        let r = Config {
            periods: Vec::new(),
            dollars_per_svg: None,
            done_dir: "~/Desktop/allfiles/templates/done/".to_owned(),
            templates_dir: "~/Desktop/allfiles/templates/".to_owned(),
        };
        assert(r@.periods =~= Seq::empty());
        r
    }
}

/// Why a text is no configuration.
pub enum ConfigError {
    /// A line that sets nothing.
    MissingEquals(String),
    /// An expense before any period.
    ExpenseBeforeSection,
    /// No period at all.
    NoSections,
}

#[verifier::ext_equal]
pub enum ConfigFault {
    MissingEquals(Seq<char>),
    ExpenseBeforeSection,
    NoSections,
}

impl View for ConfigError {
    type V = ConfigFault;

    open spec fn view(&self) -> ConfigFault {
        match *self {
            ConfigError::MissingEquals(line) => ConfigFault::MissingEquals(line@),
            ConfigError::ExpenseBeforeSection => ConfigFault::ExpenseBeforeSection,
            ConfigError::NoSections => ConfigFault::NoSections,
        }
    }
}

impl ConfigError {
    /// The error in words.
    pub fn message(&self) -> (r: String)
        ensures
            r@ == (match self@ {
                ConfigFault::MissingEquals(line) => "budgit.conf: missing '=' in line: "@ + line,
                ConfigFault::ExpenseBeforeSection =>
                    "budgit.conf: expense before any [date] section"@,
                ConfigFault::NoSections => "budgit.conf: no [date] sections found"@,
            }),
    {
        match self {
            ConfigError::MissingEquals(line) => {
                let mut out: Vec<char> = Vec::new();
                append_str(&mut out, "budgit.conf: missing '=' in line: ");
                append_str(&mut out, line.as_str());
                assert(out@ =~= "budgit.conf: missing '=' in line: "@ + line@);
                from_chars(&out)
            },
            ConfigError::ExpenseBeforeSection => "budgit.conf: expense before any [date] section".to_owned(),
            ConfigError::NoSections => "budgit.conf: no [date] sections found".to_owned(),
        }
    }
}

/// The section that lines belong to.
#[verifier::ext_equal]
pub enum Section {
    /// No header came yet.
    Before,
    /// A header whose date is no date.
    Skipped,
    Open(PeriodView),
}

/// What has been read of a configuration.
#[verifier::ext_equal]
pub struct Reading {
    pub closed: Seq<PeriodView>,
    pub section: Section,
    pub dollars_per_svg: Option<Seq<char>>,
    pub done_dir: Seq<char>,
    pub templates_dir: Seq<char>,
}

pub open spec fn nothing_read() -> Reading {
    Reading {
        closed: Seq::empty(),
        section: Section::Before,
        dollars_per_svg: None,
        done_dir: default_done_dir(),
        templates_dir: default_templates_dir(),
    }
}

/// The periods read so far, with the one that is still open.
pub open spec fn periods_read(reading: Reading) -> Seq<PeriodView> {
    match reading.section {
        Section::Open(period) => reading.closed.push(period),
        _ => reading.closed,
    }
}

/// The text of a `[...]` line.
pub open spec fn header(line: Seq<char>) -> Option<Seq<char>> {
    if line.len() >= 2 && line[0] == '[' && line.last() == ']' {
        Some(line.subrange(1, line.len() - 1))
    } else {
        None
    }
}

/// A header closes the section before it and opens one of its own, which is
/// skipped when its date is none.
pub open spec fn opened(reading: Reading, date: Seq<char>) -> Reading {
    Reading {
        closed: periods_read(reading),
        section: match date_of(trim(date)) {
            Some((y, m, d)) => Section::Open(
                PeriodView {
                    date: (y, m, d),
                    start_secs: epoch_day(y, m, d) * 86400,
                    expenses: Seq::empty(),
                },
            ),
            None => Section::Skipped,
        },
        ..reading
    }
}

pub open spec fn without_dollars_front(s: Seq<char>) -> Seq<char>
    decreases s.len(),
{
    if s.len() > 0 && s[0] == '$' {
        without_dollars_front(s.skip(1))
    } else {
        s
    }
}

pub open spec fn without_dollars_back(s: Seq<char>) -> Seq<char>
    decreases s.len(),
{
    if s.len() > 0 && s.last() == '$' {
        without_dollars_back(s.drop_last())
    } else {
        s
    }
}

/// An amount without the dollar signs around it.
pub open spec fn without_dollars(s: Seq<char>) -> Seq<char> {
    trim(without_dollars_back(without_dollars_front(s)))
}

/// What a `label = value` line does.
pub open spec fn set(reading: Reading, label: Seq<char>, value: Seq<char>) -> Result<
    Reading,
    ConfigFault,
> {
    if same_ignoring_ascii_case(label, "svg done dir"@) {
        Ok(Reading { done_dir: value, ..reading })
    } else if same_ignoring_ascii_case(label, "svg templates dir"@) {
        Ok(Reading { templates_dir: value, ..reading })
    } else if same_ignoring_ascii_case(label, "dollars per svg"@) {
        if is_amount(without_dollars(value)) {
            Ok(Reading { dollars_per_svg: Some(without_dollars(value)), ..reading })
        } else {
            Ok(reading)
        }
    } else if !is_amount(value) {
        Ok(reading)
    } else {
        match reading.section {
            Section::Open(period) => Ok(
                Reading {
                    section: Section::Open(
                        PeriodView { expenses: period.expenses.push((label, value)), ..period },
                    ),
                    ..reading
                },
            ),
            Section::Skipped => Ok(reading),
            Section::Before => Err(ConfigFault::ExpenseBeforeSection),
        }
    }
}

/// What a line does.
pub open spec fn line_read(reading: Reading, raw: Seq<char>) -> Result<Reading, ConfigFault> {
    let line = trim(uncommented(raw));
    if line.len() == 0 {
        Ok(reading)
    } else {
        match header(line) {
            Some(date) => Ok(opened(reading, date)),
            None => match first_place(line, '=') {
                None => Err(ConfigFault::MissingEquals(raw)),
                Some(i) => set(reading, trim(line.take(i)), trim(line.skip(i + 1))),
            },
        }
    }
}

/// What lines do, one after another, up to the first that is refused.
pub open spec fn lines_read(lines: Seq<Seq<char>>) -> Result<Reading, ConfigFault>
    decreases lines.len(),
{
    if lines.len() == 0 {
        Ok(nothing_read())
    } else {
        match lines_read(lines.drop_last()) {
            Ok(reading) => line_read(reading, lines.last()),
            Err(fault) => Err(fault),
        }
    }
}

proof fn lemma_fault_stays(lines: Seq<Seq<char>>, n: int)
    requires
        0 <= n <= lines.len(),
        lines_read(lines.take(n)) is Err,
    ensures
        lines_read(lines) == lines_read(lines.take(n)),
    decreases lines.len(),
{
    if n == lines.len() {
        assert(lines.take(n) =~= lines);
    } else {
        assert(lines.drop_last().take(n) =~= lines.take(n));
        lemma_fault_stays(lines.drop_last(), n);
    }
}

/// The configuration that a text writes, with its periods by when they start.
pub open spec fn config_of(text: Seq<char>) -> Result<ConfigView, ConfigFault> {
    match lines_read(lines_of(text)) {
        Err(fault) => Err(fault),
        Ok(reading) => if periods_read(reading).len() == 0 {
            Err(ConfigFault::NoSections)
        } else {
            Ok(
                ConfigView {
                    periods: chronological(periods_read(reading)),
                    dollars_per_svg: reading.dollars_per_svg,
                    done_dir: reading.done_dir,
                    templates_dir: reading.templates_dir,
                },
            )
        },
    }
}

/// A configuration that is being read.
struct Reader {
    config: Config,
    open: Option<Period>,
    started: bool,
}

impl Reader {
    spec fn reading(&self) -> Reading {
        Reading {
            closed: period_views(self.config.periods@),
            section: match self.open {
                Some(period) => Section::Open(period@),
                None => if self.started {
                    Section::Skipped
                } else {
                    Section::Before
                },
            },
            dollars_per_svg: optional(self.config.dollars_per_svg),
            done_dir: self.config.done_dir@,
            templates_dir: self.config.templates_dir@,
        }
    }

    fn close(&mut self)
        ensures
            final(self).open is None,
            final(self).started == old(self).started,
            final(self).reading().closed == periods_read(old(self).reading()),
            final(self).reading().dollars_per_svg == old(self).reading().dollars_per_svg,
            final(self).reading().done_dir == old(self).reading().done_dir,
            final(self).reading().templates_dir == old(self).reading().templates_dir,
    {
        let ghost before = self.config.periods@;
        if let Some(period) = self.open.take() {
            self.config.periods.push(period);
            assert(period_views(self.config.periods@) =~= period_views(before).push(period@));
        }
    }

    fn begin(&mut self, date: &[char])
        ensures
            final(self).reading() == opened(old(self).reading(), date@),
    {
        self.close();
        self.started = true;
        if let Some((y, m, d)) = read_date(trim_chars(date)) {
            let days: i64 = days_from_civil(y, m, d);
            proof {
                lemma_day_bounds(y as int, m as int, d as int);
            }
            let period = Period {
                year: y,
                month: m,
                day: d,
                start_secs: days * 86400,
                expenses: Vec::new(),
            };
            assert(period@.expenses =~= Seq::empty());
            self.open = Some(period);
        }
        assert(self.reading() =~= opened(old(self).reading(), date@));
    }

    fn assign(&mut self, label: &[char], value: &[char]) -> (r: Result<(), ConfigError>)
        ensures
            match r {
                Ok(_) => set(old(self).reading(), label@, value@) == Ok::<Reading, ConfigFault>(
                    final(self).reading(),
                ),
                Err(error) => set(old(self).reading(), label@, value@) == Err::<
                    Reading,
                    ConfigFault,
                >(error@),
            },
    {
        if chars_match_ignoring_case(label, "svg done dir") {
            self.config.done_dir = from_chars(value);
            return Ok(());
        }
        if chars_match_ignoring_case(label, "svg templates dir") {
            self.config.templates_dir = from_chars(value);
            return Ok(());
        }
        if chars_match_ignoring_case(label, "dollars per svg") {
            let amount = strip_dollars(value);
            if reads_as_amount(amount) {
                self.config.dollars_per_svg = Some(from_chars(amount));
            }
            return Ok(());
        }
        if !reads_as_amount(value) {
            return Ok(());
        }
        match self.open.take() {
            Some(mut period) => {
                let ghost before = period;
                period.expenses.push(
                    Expense { label: from_chars(label), amount: from_chars(value) },
                );
                assert(expense_views(period.expenses@) =~= expense_views(before.expenses@).push(
                    (label@, value@),
                ));
                self.open = Some(period);
                Ok(())
            },
            None => if self.started {
                Ok(())
            } else {
                Err(ConfigError::ExpenseBeforeSection)
            },
        }
    }

    fn line(&mut self, raw: &[char]) -> (r: Result<(), ConfigError>)
        ensures
            match r {
                Ok(_) => line_read(old(self).reading(), raw@) == Ok::<Reading, ConfigFault>(
                    final(self).reading(),
                ),
                Err(error) => line_read(old(self).reading(), raw@) == Err::<Reading, ConfigFault>(
                    error@,
                ),
            },
    {
        let line = trim_chars(strip_comment_chars(raw));
        let n: usize = line.len();
        if n == 0 {
            return Ok(());
        }
        if n >= 2 && line[0] == '[' && line[n - 1] == ']' {
            let date = slice_subrange(line, 1, n - 1);
            assert(date@ =~= line@.subrange(1, n - 1));
            self.begin(date);
            return Ok(());
        }
        match find_char(line, '=') {
            None => Err(ConfigError::MissingEquals(from_chars(raw))),
            Some(i) => {
                let label = slice_subrange(line, 0, i);
                let value = slice_subrange(line, i + 1, n);
                assert(label@ =~= line@.take(i as int));
                assert(value@ =~= line@.skip(i + 1));
                self.assign(trim_chars(label), trim_chars(value))
            },
        }
    }
}

proof fn lemma_day_bounds(y: int, m: int, d: int)
    requires
        i32::MIN <= y <= i32::MAX,
        1 <= m <= 12,
        1 <= d <= 31,
    ensures
        -1_000_000_000_000 < epoch_day(y, m, d) < 1_000_000_000_000,
{
    reveal_with_fuel(crate::localtime::days_before_month, 13);
}

fn strip_dollars(s: &[char]) -> (r: &[char])
    ensures
        r@ == without_dollars(s@),
{
    let mut front: &[char] = s;
    let mut more = front.len() > 0 && front[0] == '$';
    while more
        invariant
            without_dollars_front(front@) == without_dollars_front(s@),
            more == (front@.len() > 0 && front@[0] == '$'),
        decreases front@.len(),
    {
        let rest = slice_subrange(front, 1, front.len());
        assert(rest@ =~= front@.skip(1));
        front = rest;
        more = front.len() > 0 && front[0] == '$';
    }
    let ghost middle = front@;
    let mut back: &[char] = front;
    more = back.len() > 0 && back[back.len() - 1] == '$';
    while more
        invariant
            without_dollars_back(back@) == without_dollars_back(middle),
            more == (back@.len() > 0 && back@.last() == '$'),
        decreases back@.len(),
    {
        let rest = slice_subrange(back, 0, back.len() - 1);
        assert(rest@ =~= back@.drop_last());
        back = rest;
        more = back.len() > 0 && back[back.len() - 1] == '$';
    }
    trim_chars(back)
}

impl Config {
    /// Reads a configuration: `[YYYY-MM-DD]` opens a period, and the
    /// `label = amount` lines below it are its monthly expenses. There is at
    /// least one period, and they come out by when they start, at midnight UTC.
    pub fn parse(text: &str) -> (r: Result<Config, ConfigError>)
        ensures
            match r {
                Ok(config) => {
                    &&& config_of(text@) == Ok::<ConfigView, ConfigFault>(config@)
                    &&& config.periods@.len() >= 1
                    &&& forall|i: int, j: int|
                        0 <= i <= j < config.periods@.len() ==> (
                        #[trigger] config.periods@[i]).start_secs <= (
                        #[trigger] config.periods@[j]).start_secs
                },
                Err(error) => config_of(text@) == Err::<ConfigView, ConfigFault>(error@),
            },
    {
        let chars = to_chars(text);
        let lines = lines_chars(&chars);
        let ghost all = views(lines@);
        let mut reader = Reader { config: Config::default(), open: None, started: false };
        assert(reader.reading() =~= nothing_read());
        assert(all.take(0) =~= Seq::empty());
        let mut i: usize = 0;
        while i < lines.len()
            invariant
                i <= lines@.len(),
                all == views(lines@),
                all == lines_of(text@),
                lines_read(all.take(i as int)) == Ok::<Reading, ConfigFault>(reader.reading()),
            decreases lines@.len() - i,
        {
            assert(all.take(i + 1).drop_last() =~= all.take(i as int));
            assert(all.take(i + 1).last() == lines@[i as int]@);
            if let Err(error) = reader.line(&lines[i]) {
                proof {
                    lemma_fault_stays(all, i + 1);
                }
                return Err(error);
            }
            i += 1;
        }
        assert(all.take(all.len() as int) =~= all);
        let ghost reading = reader.reading();
        reader.close();
        if reader.config.periods.len() == 0 {
            assert(period_views(reader.config.periods@).len() == 0);
            return Err(ConfigError::NoSections);
        }
        assert(periods_read(reading) == period_views(reader.config.periods@));
        let Config { periods, dollars_per_svg, done_dir, templates_dir } = reader.config;
        let ghost read = periods@;
        let periods = sort_periods(periods);
        proof {
            lemma_chronological(period_views(read));
            let sorted = period_views(periods@);
            assert forall|i: int, j: int| 0 <= i <= j < periods@.len() implies (
            #[trigger] periods@[i]).start_secs <= (#[trigger] periods@[j]).start_secs by {
                assert(sorted[i].start_secs <= sorted[j].start_secs);
            }
        }
        Ok(Config { periods, dollars_per_svg, done_dir, templates_dir })
    }
}

/// Periods with another one among them: behind those that start no later.
pub open spec fn inserted(periods: Seq<PeriodView>, period: PeriodView) -> Seq<PeriodView>
    decreases periods.len(),
{
    if periods.len() == 0 {
        seq![period]
    } else if periods.last().start_secs <= period.start_secs {
        periods.push(period)
    } else {
        inserted(periods.drop_last(), period).push(periods.last())
    }
}

/// Periods by when they start; those that start together stay in their order.
pub open spec fn chronological(periods: Seq<PeriodView>) -> Seq<PeriodView>
    decreases periods.len(),
{
    if periods.len() == 0 {
        Seq::empty()
    } else {
        inserted(chronological(periods.drop_last()), periods.last())
    }
}

pub open spec fn in_order(periods: Seq<PeriodView>) -> bool {
    forall|i: int, j: int|
        0 <= i <= j < periods.len() ==> (#[trigger] periods[i]).start_secs <= (
        #[trigger] periods[j]).start_secs
}

proof fn lemma_inserted(periods: Seq<PeriodView>, period: PeriodView)
    requires
        in_order(periods),
    ensures
        in_order(inserted(periods, period)),
        inserted(periods, period).len() == periods.len() + 1,
        inserted(periods, period).to_multiset() == periods.to_multiset().insert(period),
        forall|i: int|
            0 <= i <= periods.len() ==> (#[trigger] inserted(periods, period)[i]).start_secs
                <= period.start_secs || (periods.len() > 0 && inserted(
                periods,
                period,
            )[i].start_secs <= periods.last().start_secs),
    decreases periods.len(),
{
    broadcast use vstd::seq_lib::group_to_multiset_ensures;

    if periods.len() == 0 {
        assert(inserted(periods, period) =~= periods.push(period));
    } else if periods.last().start_secs <= period.start_secs {
    } else {
        let front = periods.drop_last();
        lemma_inserted(front, period);
        assert(front.push(periods.last()) =~= periods);
        let middle = inserted(front, period);
        assert(periods.to_multiset() =~= front.to_multiset().insert(periods.last()));
        assert(middle.push(periods.last()).to_multiset() =~= middle.to_multiset().insert(
            periods.last(),
        ));
        assert(front.to_multiset().insert(period).insert(periods.last())
            =~= front.to_multiset().insert(periods.last()).insert(period));
    }
}

/// Periods by their start are the same periods, each no earlier than those
/// before it.
pub proof fn lemma_chronological(periods: Seq<PeriodView>)
    ensures
        in_order(chronological(periods)),
        chronological(periods).len() == periods.len(),
        chronological(periods).to_multiset() == periods.to_multiset(),
    decreases periods.len(),
{
    broadcast use vstd::seq_lib::group_to_multiset_ensures;

    if periods.len() > 0 {
        let front = periods.drop_last();
        lemma_chronological(front);
        lemma_inserted(chronological(front), periods.last());
        assert(front.push(periods.last()) =~= periods);
    } else {
        assert(periods =~= Seq::empty());
    }
}

/// A period with the start that the local calendar gives it, if it gives one.
pub open spec fn started_at(period: PeriodView, start: Option<i64>) -> PeriodView {
    match start {
        Some(secs) => PeriodView { start_secs: secs as int, ..period },
        None => period,
    }
}

pub open spec fn all_started(periods: Seq<PeriodView>, starts: Seq<Option<i64>>) -> Seq<PeriodView> {
    Seq::new(periods.len(), |i: int| started_at(periods[i], starts[i]))
}

proof fn lemma_inserted_place(periods: Seq<PeriodView>, period: PeriodView, n: int)
    requires
        0 <= n <= periods.len(),
        n > 0 ==> periods[n - 1].start_secs <= period.start_secs,
        forall|j: int| n <= j < periods.len() ==> (#[trigger] periods[j]).start_secs
            > period.start_secs,
    ensures
        inserted(periods, period) == periods.insert(n, period),
    decreases periods.len(),
{
    if n == periods.len() {
        if periods.len() == 0 {
            assert(periods.insert(n, period) =~= seq![period]);
        } else {
            assert(periods.insert(n, period) =~= periods.push(period));
        }
    } else {
        assert(periods[periods.len() - 1].start_secs > period.start_secs);
        let front = periods.drop_last();
        assert forall|j: int| n <= j < front.len() implies (#[trigger] front[j]).start_secs
            > period.start_secs by {
            assert(periods[j].start_secs > period.start_secs);
        }
        lemma_inserted_place(front, period, n);
        assert(front.insert(n, period).push(periods.last()) =~= periods.insert(n, period));
    }
}

/// Puts periods in order.
fn sort_periods(periods: Vec<Period>) -> (r: Vec<Period>)
    ensures
        period_views(r@) == chronological(period_views(periods@)),
{
    let mut starts: Vec<Option<i64>> = Vec::new();
    let n: usize = periods.len();
    let mut i: usize = 0;
    while i < n
        invariant
            i <= n,
            starts@.len() == i,
            forall|j: int| 0 <= j < i ==> #[trigger] starts@[j] is None,
        decreases n - i,
    {
        starts.push(None);
        i += 1;
    }
    assert(all_started(period_views(periods@), starts@) =~= period_views(periods@));
    schedule(periods, &starts)
}

/// Gives each period its local start where the calendar knows one, and puts
/// the periods in order.
pub fn schedule(periods: Vec<Period>, starts: &Vec<Option<i64>>) -> (r: Vec<Period>)
    requires
        starts@.len() == periods@.len(),
    ensures
        period_views(r@) == chronological(all_started(period_views(periods@), starts@)),
{
    let ghost all = all_started(period_views(periods@), starts@);
    let ghost given = periods@;
    let mut rest = periods;
    let mut out: Vec<Period> = Vec::new();
    let mut i: usize = 0;
    assert(period_views(out@) =~= chronological(all.take(0)));
    while i < starts.len()
        invariant
            i <= starts@.len(),
            given.len() == starts@.len(),
            rest@ == given.skip(i as int),
            all == all_started(period_views(given), starts@),
            period_views(out@) =~= chronological(all.take(i as int)),
        decreases starts@.len() - i,
    {
        let mut period = rest.remove(0);
        assert(rest@ =~= given.skip(i + 1));
        let ghost before = period;
        if let Some(secs) = starts[i] {
            period.start_secs = secs;
        }
        assert(period@ =~= all[i as int]);
        let mut n: usize = out.len();
        let mut looking = n > 0 && out[n - 1].start_secs > period.start_secs;
        while looking
            invariant
                n <= out@.len(),
                looking == (n > 0 && out@[n - 1].start_secs > period.start_secs),
                forall|j: int|
                    n <= j < out@.len() ==> (#[trigger] out@[j]).start_secs > period.start_secs,
            decreases n,
        {
            n -= 1;
            looking = n > 0 && out[n - 1].start_secs > period.start_secs;
        }
        let ghost placed = out@;
        let ghost shown = period@;
        proof {
            let views = period_views(placed);
            assert forall|j: int| n <= j < views.len() implies (#[trigger] views[j]).start_secs
                > shown.start_secs by {
                assert(placed[j].start_secs > period.start_secs);
            }
            lemma_inserted_place(views, shown, n as int);
        }
        out.insert(n, period);
        assert(period_views(out@) =~= period_views(placed).insert(n as int, shown));
        assert(all.take(i + 1).drop_last() =~= all.take(i as int));
        assert(all.take(i + 1).last() == shown);
        i += 1;
    }
    assert(all.take(all.len() as int) =~= all);
    out
}

/// How long the period at a place has been in force by a moment: from its
/// start to the next one's, as far as that is past.
pub open spec fn active_at(starts: Seq<i64>, now: int, i: int) -> int {
    let end = if i + 1 < starts.len() && starts[i + 1] < now {
        starts[i + 1] as int
    } else {
        now
    };
    if end > starts[i] {
        end - starts[i]
    } else {
        0
    }
}

/// How long each period has been in force by a moment.
pub fn active_spans(starts: &Vec<i64>, now: i64) -> (r: Vec<u64>)
    ensures
        r@.len() == starts@.len(),
        forall|i: int|
            0 <= i < r@.len() ==> #[trigger] r@[i] == active_at(starts@, now as int, i),
{
    let mut out: Vec<u64> = Vec::new();
    let mut i: usize = 0;
    while i < starts.len()
        invariant
            i <= starts@.len(),
            out@.len() == i,
            forall|j: int|
                0 <= j < i ==> #[trigger] out@[j] == active_at(starts@, now as int, j),
        decreases starts@.len() - i,
    {
        let end: i64 = if i + 1 < starts.len() && starts[i + 1] < now {
            starts[i + 1]
        } else {
            now
        };
        let span: u64 = if end > starts[i] {
            (end as i128 - starts[i] as i128) as u64
        } else {
            0
        };
        out.push(span);
        i += 1;
    }
    out
}

/// The last period that has started by a moment.
pub open spec fn current(starts: Seq<i64>, now: int) -> Option<int>
    decreases starts.len(),
{
    if starts.len() == 0 {
        None
    } else if starts.last() <= now {
        Some(starts.len() - 1)
    } else {
        current(starts.drop_last(), now)
    }
}

/// The period whose expenses count at a moment.
pub fn current_period(starts: &Vec<i64>, now: i64) -> (r: Option<usize>)
    ensures
        match r {
            Some(i) => current(starts@, now as int) == Some(i as int),
            None => current(starts@, now as int) is None,
        },
{
    let mut n: usize = starts.len();
    assert(starts@.take(n as int) =~= starts@);
    while n > 0
        invariant
            n <= starts@.len(),
            current(starts@, now as int) == current(starts@.take(n as int), now as int),
        decreases n,
    {
        if starts[n - 1] <= now {
            return Some(n - 1);
        }
        assert(starts@.take(n as int).drop_last() =~= starts@.take(n - 1));
        n -= 1;
    }
    None
}

pub open spec fn total_active(starts: Seq<i64>, now: int, n: int) -> int
    decreases n,
{
    if n <= 0 {
        0
    } else {
        total_active(starts, now, n - 1) + active_at(starts, now, n - 1)
    }
}

proof fn lemma_total_active(starts: Seq<i64>, now: int, n: int)
    requires
        forall|i: int, j: int| 0 <= i <= j < starts.len() ==> starts[i] <= starts[j],
        0 < n <= starts.len(),
    ensures
        total_active(starts, now, n) == (if now < starts[0] {
            0
        } else if n < starts.len() && starts[n] < now {
            starts[n] - starts[0]
        } else {
            now - starts[0]
        }),
    decreases n,
{
    if n > 1 {
        lemma_total_active(starts, now, n - 1);
    } else {
        assert(total_active(starts, now, 0) == 0);
    }
}

/// Every moment since the first period started is paid for once: the spans of
/// all the periods add up to the time since then.
pub proof fn lemma_spans_add_up(starts: Seq<i64>, now: int)
    requires
        starts.len() > 0,
        forall|i: int, j: int| 0 <= i <= j < starts.len() ==> starts[i] <= starts[j],
    ensures
        total_active(starts, now, starts.len() as int) == (if now < starts[0] {
            0
        } else {
            now - starts[0]
        }),
{
    lemma_total_active(starts, now, starts.len() as int);
}

/// Periods that start later change nothing that was spent before them: their
/// own spans are empty, and the spans of the others, and the current period,
/// stay what they were.
pub proof fn lemma_future_periods_do_not_count(starts: Seq<i64>, later: Seq<i64>, now: int)
    requires
        forall|i: int| 0 <= i < later.len() ==> #[trigger] later[i] > now,
    ensures
        forall|i: int|
            starts.len() <= i < starts.len() + later.len() ==> #[trigger] active_at(
                starts + later,
                now,
                i,
            ) == 0,
        forall|i: int|
            0 <= i < starts.len() ==> #[trigger] active_at(starts + later, now, i) == active_at(
                starts,
                now,
                i,
            ),
        current(starts + later, now) == current(starts, now),
    decreases later.len(),
{
    let all = starts + later;
    if later.len() == 0 {
        assert(all =~= starts);
    } else {
        lemma_future_periods_do_not_count(starts, later.drop_last(), now);
        assert(all.drop_last() =~= starts + later.drop_last());
        assert forall|i: int| starts.len() <= i < all.len() implies #[trigger] active_at(
            all,
            now,
            i,
        ) == 0 by {
            assert(all[i] == later[i - starts.len()]);
        }
        assert forall|i: int| 0 <= i < starts.len() implies #[trigger] active_at(all, now, i)
            == active_at(starts, now, i) by {
            if i == starts.len() - 1 {
                assert(all[i + 1] == later[0]);
            }
        }
        assert(all.last() == later[later.len() - 1]);
    }
}

/// The field of a line of the ledger `title,amount,date` that has the amount.
/// The date may be left out, and the title may hold commas: the last field is
/// the amount if it reads as one; else it is the date, and the amount is the
/// field before it.
pub open spec fn amount_field(fields: Seq<Seq<char>>) -> Seq<char> {
    if fields.len() >= 3 && !is_amount(trim(fields.last())) {
        trim(fields[fields.len() - 2])
    } else {
        trim(fields.last())
    }
}

/// The amount that a line of the ledger enters, as it is written. The header
/// and lines without an amount enter nothing.
pub open spec fn entry(raw: Seq<char>) -> Option<Seq<char>> {
    let line = trim(uncommented(raw));
    let fields = split_on(line, ',');
    let amount = amount_field(fields);
    if line.len() == 0 || fields.len() < 2 || !is_amount(amount) {
        None
    } else {
        Some(amount)
    }
}

/// The amounts that lines of the ledger enter.
pub open spec fn entries(lines: Seq<Seq<char>>) -> Seq<Seq<char>>
    decreases lines.len(),
{
    if lines.len() == 0 {
        Seq::empty()
    } else {
        let before = entries(lines.drop_last());
        match entry(lines.last()) {
            Some(amount) => before.push(amount),
            None => before,
        }
    }
}

fn ledger_entry(raw: &[char]) -> (r: Option<String>)
    ensures
        optional(r) == entry(raw@),
{
    let line = trim_chars(strip_comment_chars(raw));
    if line.len() == 0 {
        return None;
    }
    let fields = split_chars(line, ',');
    let ghost texts = views(fields@);
    let n: usize = fields.len();
    if n < 2 {
        return None;
    }
    assert(texts[n - 1] == fields@[n - 1]@ && texts[n - 2] == fields@[n - 2]@);
    let last = trim_chars(&fields[n - 1]);
    if reads_as_amount(last) {
        return Some(from_chars(last));
    }
    if n >= 3 {
        let amount = trim_chars(&fields[n - 2]);
        if reads_as_amount(amount) {
            return Some(from_chars(amount));
        }
    }
    None
}

/// The amounts in a ledger, in order, as they are written; the balance is
/// their sum.
pub fn ledger_amounts(text: &str) -> (r: Vec<String>)
    ensures
        string_views(r@) == entries(lines_of(text@)),
{
    let chars = to_chars(text);
    let lines = lines_chars(&chars);
    let ghost all = views(lines@);
    let mut out: Vec<String> = Vec::new();
    let mut i: usize = 0;
    assert(string_views(out@) =~= entries(all.take(0)));
    while i < lines.len()
        invariant
            i <= lines@.len(),
            all == views(lines@),
            string_views(out@) =~= entries(all.take(i as int)),
        decreases lines@.len() - i,
    {
        assert(all.take(i + 1).drop_last() =~= all.take(i as int));
        if let Some(amount) = ledger_entry(&lines[i]) {
            let ghost before = out@;
            out.push(amount);
            assert(string_views(out@) =~= string_views(before).push(amount@));
        }
        i += 1;
    }
    assert(all.take(all.len() as int) =~= all);
    out
}

/// What a line of `path:count` counts: the number after the last colon.
pub open spec fn line_count(line: Seq<char>) -> Option<nat> {
    unsigned_value(trim(split_on(line, ':').last()), u64::MAX as nat)
}

/// The sum of what lines count, and how many of them count something.
pub open spec fn counted(lines: Seq<Seq<char>>) -> (int, int)
    decreases lines.len(),
{
    if lines.len() == 0 {
        (0, 0)
    } else {
        let before = counted(lines.drop_last());
        match line_count(lines.last()) {
            Some(n) => (before.0 + n, before.1 + 1),
            None => before,
        }
    }
}

/// The matches and the files in what a search prints.
pub fn count_matches(output: &[u8]) -> (r: (u128, u64))
    ensures
        (r.0 as int, r.1 as int) == counted(lines_of(lossy_text(output@))),
{
    let text = lossy(output);
    matches_in(text.as_str())
}

/// The matches and the files in lines of `path:count`.
pub fn matches_in(text: &str) -> (r: (u128, u64))
    ensures
        (r.0 as int, r.1 as int) == counted(lines_of(text@)),
{
    let chars = to_chars(text);
    let lines = lines_chars(&chars);
    let ghost all = views(lines@);
    let mut total: u128 = 0;
    let mut files: u64 = 0;
    let mut i: usize = 0;
    assert(all.take(0) =~= Seq::empty());
    while i < lines.len()
        invariant
            i <= lines@.len(),
            all == views(lines@),
            (total as int, files as int) == counted(all.take(i as int)),
            total <= i * 0xFFFF_FFFF_FFFF_FFFF,
            files <= i,
        decreases lines@.len() - i,
    {
        let parts = split_chars(&lines[i], ':');
        let ghost texts = views(parts@);
        assert(texts.last() == parts@.last()@);
        assert(all.take(i + 1).drop_last() =~= all.take(i as int));
        assert(all.take(i + 1).last() == lines@[i as int]@);
        assert(i * 0xFFFF_FFFF_FFFF_FFFF <= 0xFFFF_FFFF_FFFF_FFFF * 0xFFFF_FFFF_FFFF_FFFF)
            by (nonlinear_arith)
            requires
                i <= 0xFFFF_FFFF_FFFF_FFFF,
        ;
        if let Some(n) = parse_unsigned(trim_chars(&parts[parts.len() - 1]), u64::MAX) {
            total = total + n as u128;
            files = files + 1;
        }
        i += 1;
    }
    assert(all.take(all.len() as int) =~= all);
    (total, files)
}

/// Where the parts of the widget start.
#[derive(Clone, Copy, Debug, PartialEq, Eq, Structural)]
pub struct Layout {
    pub label_y: usize,
    pub balance_y: usize,
    pub fraction_y: usize,
    pub stats_y: usize,
    pub height: usize,
}

pub open spec fn laid_out(label_h: int, stat_h: int, balance_h: int, r: Layout) -> bool {
    &&& r.label_y == TOP_GAP
    &&& r.balance_y == TOP_GAP + label_h + LABEL_GAP
    &&& r.fraction_y == r.balance_y + balance_h + FRACTION_GAP
    &&& r.stats_y == r.fraction_y + label_h + STATS_GAP
    &&& r.height == r.stats_y + 3 * STAT_ROW_H + if label_h > stat_h {
        label_h
    } else {
        stat_h
    }
}

/// The layout for the heights of the two small fonts and of the balance's ink.
pub fn compute_layout(label_h: usize, stat_h: usize, balance_h: usize) -> (r: Layout)
    requires
        label_h <= span(),
        stat_h <= span(),
        balance_h <= span(),
    ensures
        laid_out(label_h as int, stat_h as int, balance_h as int, r),
{
    let label_y: usize = TOP_GAP;
    let balance_y: usize = label_y + label_h + LABEL_GAP;
    let fraction_y: usize = balance_y + balance_h + FRACTION_GAP;
    let stats_y: usize = fraction_y + label_h + STATS_GAP;
    let last: usize = if label_h > stat_h {
        label_h
    } else {
        stat_h
    };
    Layout { label_y, balance_y, fraction_y, stats_y, height: stats_y + 3 * STAT_ROW_H + last }
}

/// How much is left.
#[derive(Clone, Copy, Debug, PartialEq, Eq, Structural)]
pub enum Standing {
    /// More than nothing.
    Positive,
    /// Nothing or less, but by less than a hundred.
    Low,
    Overdrawn,
    /// No number at all.
    Unknown,
}

/// What the widget shows.
pub struct BudgetView {
    pub dollars: String,
    pub fraction: String,
    pub color: Index,
    pub monthly: String,
    pub daily: String,
    pub days_left: String,
    pub svgs_completed: String,
}

/// The figures of the budget: what remains in ten-thousandths of a dollar, the
/// monthly and daily burn in cents, whether anything burns, and the days left
/// and finished drawings with one decimal.
pub struct Figures {
    pub remaining: i64,
    pub standing: Standing,
    pub burn_cents: i64,
    pub burning: bool,
    pub daily_cents: i64,
    pub days_left: String,
    pub svgs_completed: String,
}

pub open spec fn standing_color(standing: Standing) -> Index {
    match standing {
        Standing::Positive => LIME,
        Standing::Low => ORANGE,
        Standing::Overdrawn => CRIMSON,
        Standing::Unknown => CRIMSON,
    }
}

pub open spec fn days_shown(figures: &Figures) -> Seq<char> {
    match figures.standing {
        Standing::Positive => if figures.burning {
            figures.days_left@ + seq!['d']
        } else {
            "inf"@
        },
        Standing::Unknown => "inf"@,
        _ => "0d"@,
    }
}

pub open spec fn shows(figures: &Figures, r: BudgetView) -> bool {
    &&& r.dollars@ == dollars(figures.remaining as int, 10000)
    &&& r.fraction@ == seq!['.'] + padded(magnitude(figures.remaining as int) % 10000, 4)
    &&& r.color == standing_color(figures.standing)
    &&& r.monthly@ == money(figures.burn_cents as int) + "/mo"@
    &&& r.daily@ == money(figures.daily_cents as int) + "/day"@
    &&& r.days_left@ == days_shown(figures)
    &&& r.svgs_completed@ == figures.svgs_completed@
}

fn with_suffix(text: &str, suffix: &str) -> (r: String)
    ensures
        r@ == text@ + suffix@,
{
    let mut out: Vec<char> = Vec::new();
    append_str(&mut out, text);
    append_str(&mut out, suffix);
    assert(out@ =~= text@ + suffix@);
    from_chars(&out)
}

/// The figures in words and colors.
pub fn budget_view(figures: &Figures) -> (r: BudgetView)
    requires
        figures.remaining > i64::MIN,
        figures.burn_cents > i64::MIN,
        figures.daily_cents > i64::MIN,
    ensures
        shows(figures, r),
{
    let (dollars, fraction) = split_money(figures.remaining);
    let burn = fmt_money(figures.burn_cents);
    let daily = fmt_money(figures.daily_cents);
    proof {
        reveal_strlit("d");
        assert("d"@ =~= seq!['d']);
    }
    let days_left = match figures.standing {
        Standing::Positive => if figures.burning {
            with_suffix(figures.days_left.as_str(), "d")
        } else {
            "inf".to_owned()
        },
        Standing::Unknown => "inf".to_owned(),
        _ => "0d".to_owned(),
    };
    BudgetView {
        dollars,
        fraction,
        color: match figures.standing {
            Standing::Positive => LIME,
            Standing::Low => ORANGE,
            Standing::Overdrawn => CRIMSON,
            Standing::Unknown => CRIMSON,
        },
        monthly: with_suffix(burn.as_str(), "/mo"),
        daily: with_suffix(daily.as_str(), "/day"),
        days_left,
        svgs_completed: figures.svgs_completed.as_str().to_owned(),
    }
}

/// The fonts by their places: labels, the balance, and values.
pub const LABEL_FONT: usize = 0;

pub const BALANCE_FONT: usize = 1;

pub const STAT_FONT: usize = 2;

/// A row of a label on the left and a value on the right.
pub open spec fn row(label: Seq<char>, value: Seq<char>, width: int, y: int) -> Seq<ShapeView> {
    seq![
        ShapeView::Text {
            font: LABEL_FONT as int,
            text: label,
            x: ROW_PAD as int,
            y,
            color: CREAM,
        },
        ShapeView::Text {
            font: STAT_FONT as int,
            text: value,
            x: if ROW_PAD + width > WIDTH {
                0
            } else {
                WIDTH - ROW_PAD - width
            },
            y,
            color: CREAM,
        },
    ]
}

/// The whole widget.
pub open spec fn picture(view: &BudgetView, layout: Layout, stat_font: &BitmapFont) -> Seq<ShapeView> {
    let y = layout.stats_y as int;
    seq![
        ShapeView::Centered {
            font: LABEL_FONT as int,
            text: "MONEY LEFT"@,
            left: 0,
            width: WIDTH as int,
            y: layout.label_y as int,
            color: CREAM,
        },
        ShapeView::Tight {
            font: BALANCE_FONT as int,
            text: view.dollars@,
            left: 0,
            width: WIDTH as int,
            y: layout.balance_y as int,
            color: view.color,
        },
        ShapeView::Centered {
            font: LABEL_FONT as int,
            text: view.fraction@,
            left: 0,
            width: WIDTH as int,
            y: layout.fraction_y as int,
            color: view.color,
        },
    ] + row("Monthly"@, view.monthly@, stat_font.width_of(view.monthly@), y) + row(
        "Daily"@,
        view.daily@,
        stat_font.width_of(view.daily@),
        y + STAT_ROW_H,
    ) + row("Days left"@, view.days_left@, stat_font.width_of(view.days_left@), y + 2 * STAT_ROW_H)
        + row(
        "~ svgs completed"@,
        view.svgs_completed@,
        stat_font.width_of(view.svgs_completed@),
        y + 3 * STAT_ROW_H,
    )
}

fn push_row(out: &mut Vec<Shape>, label: &str, value: &str, stat_font: &BitmapFont, y: usize)
    requires
        stat_font.wf(),
        255 * value@.len() + span() + 1 <= usize::MAX,
        y <= isize::MAX / 128,
    ensures
        shape_views(final(out)@) == shape_views(old(out)@) + row(
            label@,
            value@,
            stat_font.width_of(value@),
            y as int,
        ),
{
    let ghost start = out@;
    let width: usize = stat_font.text_width(value);
    let x: usize = if width > WIDTH - ROW_PAD {
        0
    } else {
        WIDTH - ROW_PAD - width
    };
    out.push(
        Shape::Text {
            font: LABEL_FONT,
            text: label.to_owned(),
            x: ROW_PAD as isize,
            y: y as isize,
            color: CREAM,
        },
    );
    out.push(
        Shape::Text {
            font: STAT_FONT,
            text: value.to_owned(),
            x: x as isize,
            y: y as isize,
            color: CREAM,
        },
    );
    assert(shape_views(out@) =~= shape_views(start) + row(
        label@,
        value@,
        stat_font.width_of(value@),
        y as int,
    ));
}

/// The widget's picture: the balance in big letters, its fraction, and four
/// rows of figures.
pub fn shapes(view: &BudgetView, layout: Layout, stat_font: &BitmapFont) -> (r: Vec<Shape>)
    requires
        stat_font.wf(),
        layout.height <= 16 * span(),
        layout.label_y <= layout.balance_y <= layout.fraction_y <= layout.stats_y <= layout.height,
        255 * view.monthly@.len() + span() + 1 <= usize::MAX,
        255 * view.daily@.len() + span() + 1 <= usize::MAX,
        255 * view.days_left@.len() + span() + 1 <= usize::MAX,
        255 * view.svgs_completed@.len() + span() + 1 <= usize::MAX,
    ensures
        shape_views(r@) == picture(view, layout, stat_font),
{
    let mut out: Vec<Shape> = Vec::new();
    out.push(
        Shape::Centered {
            font: LABEL_FONT,
            text: "MONEY LEFT".to_owned(),
            left: 0,
            width: WIDTH,
            y: layout.label_y as isize,
            color: CREAM,
        },
    );
    out.push(
        Shape::Tight {
            font: BALANCE_FONT,
            text: view.dollars.as_str().to_owned(),
            left: 0,
            width: WIDTH,
            y: layout.balance_y as isize,
            color: view.color,
        },
    );
    out.push(
        Shape::Centered {
            font: LABEL_FONT,
            text: view.fraction.as_str().to_owned(),
            left: 0,
            width: WIDTH,
            y: layout.fraction_y as isize,
            color: view.color,
        },
    );
    let ghost head = shape_views(out@);
    let y: usize = layout.stats_y;
    push_row(&mut out, "Monthly", view.monthly.as_str(), stat_font, y);
    push_row(&mut out, "Daily", view.daily.as_str(), stat_font, y + STAT_ROW_H);
    push_row(&mut out, "Days left", view.days_left.as_str(), stat_font, y + 2 * STAT_ROW_H);
    push_row(
        &mut out,
        "~ svgs completed",
        view.svgs_completed.as_str(),
        stat_font,
        y + 3 * STAT_ROW_H,
    );
    assert(shape_views(out@) =~= picture(view, layout, stat_font));
    out
}

/// A file as it was when it was last looked at.
pub struct FileSnapshot {
    pub path: String,
    pub fingerprint: Option<Fingerprint>,
}

impl FileSnapshot {
    /// Whether a file found now is not the one that was seen.
    pub open spec fn differs(&self, path: Seq<char>, fingerprint: Option<Fingerprint>) -> bool {
        path != self.path@ || fingerprint != self.fingerprint
    }

    /// Remembers the file found now; says whether it differs from the one
    /// seen before.
    pub fn see(&mut self, path: &str, fingerprint: Option<Fingerprint>) -> (r: bool)
        ensures
            final(self).path@ == path@,
            final(self).fingerprint == fingerprint,
            r == old(self).differs(path@, fingerprint),
    {
        let same_print = match (fingerprint, self.fingerprint) {
            (Some(a), Some(b)) => a == b,
            (None, None) => true,
            _ => false,
        };
        let same = same_text(path, self.path.as_str()) && same_print;
        self.path = path.to_owned();
        self.fingerprint = fingerprint;
        !same
    }
}

/// What a look at the files asks for.
#[derive(Clone, Copy, Debug, PartialEq, Eq, Structural)]
pub struct Reload {
    pub config: bool,
    pub ledger: bool,
}

/// The budget's settings and the files they came from.
pub struct Budgit {
    pub config: Config,
    pub config_snapshot: FileSnapshot,
    pub ledger_snapshot: FileSnapshot,
}

pub open spec fn seen(
    snapshot: FileSnapshot,
    found: Option<(Seq<char>, Option<Fingerprint>)>,
) -> (Seq<char>, Option<Fingerprint>) {
    match found {
        Some(file) => file,
        None => (snapshot.path@, snapshot.fingerprint),
    }
}

pub open spec fn found_view(found: Option<(&str, Option<Fingerprint>)>) -> Option<
    (Seq<char>, Option<Fingerprint>),
> {
    match found {
        Some((path, print)) => Some((path@, print)),
        None => None,
    }
}

impl Budgit {
    /// What a look at the files leads to.
    pub open spec fn look_leads_to(
        &self,
        config: Option<(&str, Option<Fingerprint>)>,
        ledger: Option<(&str, Option<Fingerprint>)>,
        after: &Self,
        r: Reload,
    ) -> bool {
        &&& after.config == self.config
        &&& (after.config_snapshot.path@, after.config_snapshot.fingerprint) == seen(
            self.config_snapshot,
            found_view(config),
        )
        &&& (after.ledger_snapshot.path@, after.ledger_snapshot.fingerprint) == seen(
            self.ledger_snapshot,
            found_view(ledger),
        )
        &&& r.config == (match config {
            Some((path, print)) => self.config_snapshot.differs(path@, print)
                && print is Some,
            None => false,
        })
        &&& r.ledger == (match ledger {
            Some((path, print)) => self.ledger_snapshot.differs(path@, print),
            None => false,
        })
    }

    /// A look at the two files, each as it is found now, or nothing where it
    /// cannot be looked at. The configuration is read again when it differs
    /// and is there; the ledger when it differs, there or not.
    pub fn poll_disk(
        &mut self,
        config: Option<(&str, Option<Fingerprint>)>,
        ledger: Option<(&str, Option<Fingerprint>)>,
    ) -> (r: Reload)
        ensures
            old(self).look_leads_to(config, ledger, final(self), r),
    {
        let mut reload = Reload { config: false, ledger: false };
        if let Some((path, print)) = config {
            let differs = self.config_snapshot.see(path, print);
            reload.config = differs && print.is_some();
        }
        if let Some((path, print)) = ledger {
            reload.ledger = self.ledger_snapshot.see(path, print);
        }
        reload
    }

    /// What a configuration that was read again leads to.
    pub open spec fn reload_leads_to(
        &self,
        config: Option<Config>,
        same_amounts: bool,
        after: &Self,
        r: ( bool, bool, ),
    ) -> bool {
        &&& after.config_snapshot == self.config_snapshot
        &&& after.ledger_snapshot == self.ledger_snapshot
        &&& match config {
            Some(config) => {
                &&& after.config == config
                &&& r.0 == !(same_amounts && same_but_amounts(config@, self.config@))
                &&& r.1 == (config.done_dir@ != self.config.done_dir@
                    || config.templates_dir@ != self.config.templates_dir@)
            },
            None => *after == *self && !r.0 && !r.1,
        }
    }

    /// Takes over a configuration that was read again; nothing when it could
    /// not be read, so that the running one stays. Says whether anything
    /// changed, and whether the drawings are to be counted afresh. The amounts
    /// are floating-point numbers, so whether they are the same, one by one, is
    /// for the caller to say.
    pub fn reload_config(&mut self, config: Option<Config>, same_amounts: bool) -> (r: (
        bool,
        bool,
    ))
        ensures
            old(self).reload_leads_to(config, same_amounts, final(self), r),
    {
        match config {
            None => (false, false),
            Some(config) => {
                let same_folders = same_text(
                    config.done_dir.as_str(),
                    self.config.done_dir.as_str(),
                ) && same_text(config.templates_dir.as_str(), self.config.templates_dir.as_str());
                let changed = !(same_amounts && same_folders && same_periods(
                    &config.periods,
                    &self.config.periods,
                ));
                self.config = config;
                (changed, !same_folders)
            },
        }
    }
}

/// Two periods that may differ in their amounts only.
pub open spec fn period_but_amounts(a: PeriodView, b: PeriodView) -> bool {
    &&& a.date == b.date
    &&& a.start_secs == b.start_secs
    &&& a.expenses.len() == b.expenses.len()
    &&& forall|k: int|
        0 <= k < a.expenses.len() ==> (#[trigger] a.expenses[k]).0 == b.expenses[k].0
}

/// Two configurations that may differ in their amounts only.
pub open spec fn same_but_amounts(a: ConfigView, b: ConfigView) -> bool {
    &&& a.done_dir == b.done_dir
    &&& a.templates_dir == b.templates_dir
    &&& a.periods.len() == b.periods.len()
    &&& forall|i: int|
        0 <= i < a.periods.len() ==> period_but_amounts(#[trigger] a.periods[i], b.periods[i])
}

/// The amounts of expenses, as they are written.
pub open spec fn expense_amounts(expenses: Seq<ExpenseView>) -> Seq<Seq<char>> {
    Seq::new(expenses.len(), |i: int| expenses[i].1)
}

/// The amounts of the first periods, as they are written.
pub open spec fn period_amounts(periods: Seq<PeriodView>, n: int) -> Seq<Seq<char>>
    decreases n,
{
    if n <= 0 {
        Seq::empty()
    } else {
        period_amounts(periods, n - 1) + expense_amounts(periods[n - 1].expenses)
    }
}

impl Config {
    /// All amounts as they are written, one after the other: what a drawing
    /// pays, nothing when it is not set, and each period's expenses.
    pub fn amounts(&self) -> (r: Vec<String>)
        ensures
            string_views(r@) == seq![
                match self@.dollars_per_svg {
                    Some(amount) => amount,
                    None => "0"@,
                },
            ] + period_amounts(self@.periods, self@.periods.len() as int),
    {
        let mut out: Vec<String> = Vec::new();
        out.push(
            match &self.dollars_per_svg {
                Some(amount) => amount.as_str().to_owned(),
                None => "0".to_owned(),
            },
        );
        let ghost first = string_views(out@);
        let mut i: usize = 0;
        assert(string_views(out@) =~= first + period_amounts(self@.periods, 0));
        while i < self.periods.len()
            invariant
                i <= self.periods@.len(),
                self.periods@.len() == self@.periods.len(),
                string_views(out@) =~= first + period_amounts(self@.periods, i as int),
            decreases self.periods@.len() - i,
        {
            let expenses = &self.periods[i].expenses;
            let ghost before = string_views(out@);
            let ghost own = expense_amounts(self@.periods[i as int].expenses);
            assert(own.len() == expenses@.len());
            let mut k: usize = 0;
            while k < expenses.len()
                invariant
                    k <= expenses@.len(),
                    own.len() == expenses@.len(),
                    forall|m: int| 0 <= m < own.len() ==> #[trigger] own[m] == expenses@[m].amount@,
                    string_views(out@) =~= before + own.take(k as int),
                decreases expenses@.len() - k,
            {
                let ghost held = out@;
                out.push(expenses[k].amount.as_str().to_owned());
                assert(string_views(out@) =~= string_views(held).push(own[k as int]));
                k += 1;
            }
            i += 1;
        }
        out
    }
}

fn same_expenses(a: &Vec<Expense>, b: &Vec<Expense>) -> (r: bool)
    ensures
        r == (expense_views(a@).len() == expense_views(b@).len() && forall|k: int|
            0 <= k < expense_views(a@).len() ==> (#[trigger] expense_views(a@)[k]).0
                == expense_views(b@)[k].0),
{
    let ghost (va, vb) = (expense_views(a@), expense_views(b@));
    if a.len() != b.len() {
        assert(va.len() != vb.len());
        return false;
    }
    let mut i: usize = 0;
    while i < a.len()
        invariant
            i <= a@.len(),
            a@.len() == b@.len(),
            va == expense_views(a@),
            vb == expense_views(b@),
            forall|j: int| 0 <= j < i ==> (#[trigger] va[j]).0 == vb[j].0,
        decreases a@.len() - i,
    {
        if !same_text(a[i].label.as_str(), b[i].label.as_str()) {
            assert(va[i as int].0 != vb[i as int].0);
            return false;
        }
        i += 1;
    }
    true
}

fn same_periods(a: &Vec<Period>, b: &Vec<Period>) -> (r: bool)
    ensures
        r == (period_views(a@).len() == period_views(b@).len() && forall|i: int|
            0 <= i < period_views(a@).len() ==> period_but_amounts(
                #[trigger] period_views(a@)[i],
                period_views(b@)[i],
            )),
{
    let ghost (va, vb) = (period_views(a@), period_views(b@));
    if a.len() != b.len() {
        assert(va.len() != vb.len());
        return false;
    }
    let mut i: usize = 0;
    while i < a.len()
        invariant
            i <= a@.len(),
            a@.len() == b@.len(),
            va == period_views(a@),
            vb == period_views(b@),
            forall|j: int| 0 <= j < i ==> period_but_amounts(#[trigger] va[j], vb[j]),
        decreases a@.len() - i,
    {
        let same = a[i].year == b[i].year && a[i].month == b[i].month && a[i].day == b[i].day
            && a[i].start_secs == b[i].start_secs && same_expenses(&a[i].expenses, &b[i].expenses);
        if !same {
            assert(!period_but_amounts(va[i as int], vb[i as int]));
            return false;
        }
        assert(period_but_amounts(va[i as int], vb[i as int]));
        i += 1;
    }
    true
}

proof fn lemma_said_exists(raw: Seq<char>, i: int)
    requires
        0 <= i <= raw.len(),
        forall|j: int| 0 <= j < i ==> !#[trigger] comment_at(raw, j),
    ensures
        exists|n: int| said_until(raw, n),
    decreases raw.len() - i,
{
    if i == raw.len() || comment_at(raw, i) {
        assert(said_until(raw, i));
    } else {
        lemma_said_exists(raw, i + 1);
    }
}

/// A line without `#` has no comment.
proof fn lemma_all_said(raw: Seq<char>)
    requires
        forall|i: int| 0 <= i < raw.len() ==> #[trigger] raw[i] != '#',
    ensures
        uncommented(raw) == raw,
{
    assert(said_until(raw, raw.len() as int));
    lemma_said_until(raw, raw.len() as int);
    lemma_start_within(raw);
    assert(raw.take(raw.len() as int) =~= raw);
}

/// What is left of a text without white space in front is its end.
proof fn lemma_start_within(s: Seq<char>)
    ensures
        trim_start(s).len() <= s.len(),
        trim_start(s) == s.skip(s.len() - trim_start(s).len()),
    decreases s.len(),
{
    if s.len() > 0 && white_space(s[0]) {
        let rest = s.subrange(1, s.len() as int);
        lemma_start_within(rest);
        assert(rest.skip(rest.len() - trim_start(rest).len()) =~= s.skip(
            s.len() - trim_start(s).len(),
        ));
    } else {
        assert(s.skip(0) =~= s);
    }
}

/// White space behind a text is trimmed away.
proof fn lemma_trim_push(s: Seq<char>, c: char)
    requires
        white_space(c),
    ensures
        trim(s.push(c)) == trim(s),
        trim_start(s).len() > 0 ==> trim_start(s.push(c)) == trim_start(s).push(c),
        trim_start(s).len() == 0 ==> trim_start(s.push(c)).len() == 0,
    decreases s.len(),
{
    let whole = s.push(c);
    if s.len() == 0 {
        reveal_with_fuel(trim_start, 2);
        assert(whole.subrange(1, 1) =~= Seq::empty());
        assert(trim_start(whole) =~= Seq::empty());
        assert(trim_end(Seq::<char>::empty()) =~= Seq::empty());
    } else if white_space(s[0]) {
        let rest = s.subrange(1, s.len() as int);
        lemma_trim_push(rest, c);
        assert(whole.subrange(1, whole.len() as int) =~= rest.push(c));
    } else {
        assert(whole.drop_last() =~= s);
    }
}

/// A carriage return at the end of a line does not count.
proof fn lemma_return_is_ignored(raw: Seq<char>)
    ensures
        trim(uncommented(raw.push('\r'))) == trim(uncommented(raw)),
{
    let whole = raw.push('\r');
    lemma_trim_push(raw, '\r');
    lemma_said_exists(raw, 0);
    let n = choose|n: int| said_until(raw, n);
    lemma_said_until(raw, n);
    assert forall|j: int| 0 <= j < raw.len() implies #[trigger] comment_at(whole, j)
        == comment_at(raw, j) by {
        if j + 1 < raw.len() {
            assert(whole[j + 1] == raw[j + 1]);
        }
    }
    if n < raw.len() {
        assert(comment_at(whole, n));
        assert(said_until(whole, n));
        lemma_said_until(whole, n);
        assert(whole.take(n) =~= raw.take(n));
    } else {
        assert(said_until(whole, whole.len() as int));
        lemma_said_until(whole, whole.len() as int);
        assert(whole.take(whole.len() as int) =~= whole);
        assert(raw.take(n) =~= raw);
    }
}

/// A text that neither starts nor ends with white space is trimmed already.
proof fn lemma_trimmed(s: Seq<char>)
    requires
        s.len() > 0,
        !white_space(s[0]),
        !white_space(s.last()),
    ensures
        trim(s) == s,
{
}

/// One space in front of a text, or behind it, is trimmed away.
proof fn lemma_spaces_trimmed(s: Seq<char>)
    requires
        s.len() > 0,
        !white_space(s[0]),
        !white_space(s.last()),
    ensures
        trim(s.push(' ')) == s,
        trim(seq![' '] + s) == s,
{
    lemma_trimmed(s);
    lemma_trim_push(s, ' ');
    let led = seq![' '] + s;
    assert(led.subrange(1, led.len() as int) =~= s);
}

proof fn lemma_first_place_after(s: Seq<char>, c: char, tail: Seq<char>)
    requires
        forall|i: int| 0 <= i < s.len() ==> #[trigger] s[i] != c,
    ensures
        first_place(s.push(c) + tail, c) == Some(s.len() as int),
        first_place(s, c) is None,
    decreases s.len() + tail.len(),
{
    if tail.len() > 0 {
        lemma_first_place_after(s, c, tail.drop_last());
        assert((s.push(c) + tail).drop_last() =~= s.push(c) + tail.drop_last());
    } else {
        assert((s.push(c) + tail).drop_last() =~= s);
        if s.len() > 0 {
            lemma_first_place_after(s.drop_last(), c, tail);
        }
    }
}

/// A section of a configuration: a header and an expense below it.
pub open spec fn section_text(date: Seq<char>, label: Seq<char>, value: Seq<char>) -> Seq<char> {
    seq!['['] + date + seq![']'] + seq!['\n'] + (label + seq![' ', '=', ' '] + value)
        + seq!['\n']
}

/// The texts that a section of one expense can be written with.
pub open spec fn writable(date: Seq<char>, label: Seq<char>, value: Seq<char>) -> bool {
    &&& date_of(date) is Some
    &&& forall|i: int|
        0 <= i < date.len() ==> crate::chars::digit(#[trigger] date[i]) || date[i] == '-'
    &&& label.len() > 0
    &&& !white_space(label[0])
    &&& !white_space(label.last())
    &&& label[0] != '['
    &&& forall|i: int|
        0 <= i < label.len() ==> #[trigger] label[i] != '#' && label[i] != '=' && label[i] != '\n'
    &&& !same_ignoring_ascii_case(label, "svg done dir"@)
    &&& !same_ignoring_ascii_case(label, "svg templates dir"@)
    &&& !same_ignoring_ascii_case(label, "dollars per svg"@)
    &&& is_amount(value)
    &&& value.len() > 0
    &&& forall|i: int|
        0 <= i < value.len() ==> !white_space(#[trigger] value[i]) && value[i] != '#'
}

/// What a section of one expense does once it is read.
proof fn lemma_section_read(
    reading: Reading,
    date: Seq<char>,
    label: Seq<char>,
    value: Seq<char>,
)
    requires
        writable(date, label, value),
    ensures
        ({
            let (y, m, d) = date_of(date)->0;
            let head = seq!['['] + date + seq![']'];
            let line = label + seq![' ', '=', ' '] + value;
            let added = PeriodView {
                date: (y, m, d),
                start_secs: epoch_day(y, m, d) * 86400,
                expenses: seq![(label, value)],
            };
            &&& line_read(reading, head) == Ok::<Reading, ConfigFault>(opened(reading, date))
            &&& line_read(opened(reading, date), line) == Ok::<Reading, ConfigFault>(
                Reading {
                    closed: periods_read(reading),
                    section: Section::Open(added),
                    ..reading
                },
            )
        }),
{
    let head = seq!['['] + date + seq![']'];
    if date.len() == 0 {
        assert(split_on(date, '-').len() == 1);
    }
    assert forall|i: int| 0 <= i < head.len() implies #[trigger] head[i] != '#' by {
        if 0 < i < head.len() - 1 {
            assert(head[i] == date[i - 1]);
        }
    }
    lemma_all_said(head);
    lemma_trimmed(head);
    assert(head.subrange(1, head.len() - 1) =~= date);
    assert(crate::chars::digit(date[0]) || date[0] == '-');
    assert(crate::chars::digit(date[date.len() - 1]) || date[date.len() - 1] == '-');
    lemma_trimmed(date);

    let line = label + seq![' ', '=', ' '] + value;
    let n = label.len() as int;
    assert(line[0] == label[0]);
    assert(line.last() == value[value.len() - 1]);
    assert forall|i: int| 0 <= i < line.len() implies #[trigger] line[i] != '#' by {
        if i < n {
            assert(line[i] == label[i]);
        } else if i >= n + 3 {
            assert(line[i] == value[i - n - 3]);
        }
    }
    lemma_all_said(line);
    lemma_trimmed(line);
    assert(header(line) is None);
    let before = label.push(' ');
    let after = seq![' '] + value;
    assert(line =~= before.push('=') + after);
    assert forall|i: int| 0 <= i < before.len() implies #[trigger] before[i] != '=' by {
        if i < n {
            assert(before[i] == label[i]);
        }
    }
    lemma_first_place_after(before, '=', after);
    assert(line.take(n + 1) =~= before);
    assert(line.skip(n + 2) =~= after);
    lemma_spaces_trimmed(label);
    assert(!white_space(value[0]) && !white_space(value[value.len() - 1]));
    lemma_spaces_trimmed(value);
    let open = opened(reading, date);
    assert(Seq::<ExpenseView>::empty().push((label, value)) =~= seq![(label, value)]);
}

/// Reading goes on after lines that were read.
proof fn lemma_two_more(lines: Seq<Seq<char>>, a: Seq<char>, b: Seq<char>)
    ensures
        lines_read(lines) matches Ok(reading) ==> (line_read(reading, a) matches Ok(next)
            ==> lines_read(lines.push(a).push(b)) == line_read(next, b)),
{
    reveal_with_fuel(lines_read, 3);
    assert(lines.push(a).push(b).drop_last() =~= lines.push(a));
    assert(lines.push(a).drop_last() =~= lines);
}

/// The lines of a text that goes on after a newline are read as the text was.
proof fn lemma_read_on(text: Seq<char>)
    requires
        lines_read(lines_of(text)) is Ok,
    ensures
        ({
            let pieces = split_on(text, '\n');
            lines_read(
                Seq::new(pieces.len(), |i: int| crate::chars::without_cr(pieces[i])),
            ) == lines_read(lines_of(text))
        }),
{
    let pieces = split_on(text, '\n');
    crate::chars::lemma_split_on_nonempty(text, '\n');
    let last = pieces.last();
    let bare = crate::chars::without_cr(last);
    let all = Seq::new(pieces.len(), |i: int| crate::chars::without_cr(pieces[i]));
    let ended = Seq::new(
        (pieces.len() - 1) as nat,
        |i: int| crate::chars::without_cr(pieces[i]),
    );
    assert(all =~= ended.push(bare));
    assert(ended.push(bare).drop_last() =~= ended);
    if last.len() == 0 {
        lemma_all_said(bare);
        assert(trim(bare) =~= Seq::empty());
    } else {
        assert(ended.push(last).drop_last() =~= ended);
        if bare != last {
            assert(last =~= bare.push('\r'));
            lemma_return_is_ignored(bare);
        }
    }
}

/// A later section never rewrites what came before: with a section added that
/// starts no earlier than all the others, the configuration has the same
/// periods and settings, and one period more.
pub proof fn lemma_later_section_is_added(
    text: Seq<char>,
    date: Seq<char>,
    label: Seq<char>,
    value: Seq<char>,
)
    requires
        config_of(text) is Ok,
        writable(date, label, value),
        ({
            let (y, m, d) = date_of(date)->0;
            forall|i: int|
                0 <= i < config_of(text)->Ok_0.periods.len() ==> (
                #[trigger] config_of(text)->Ok_0.periods[i]).start_secs <= epoch_day(y, m, d)
                    * 86400
        }),
    ensures
        ({
            let (y, m, d) = date_of(date)->0;
            let config = config_of(text)->Ok_0;
            config_of(text + seq!['\n'] + section_text(date, label, value)) == Ok::<
                ConfigView,
                ConfigFault,
            >(
                ConfigView {
                    periods: config.periods.push(
                        PeriodView {
                            date: (y, m, d),
                            start_secs: epoch_day(y, m, d) * 86400,
                            expenses: seq![(label, value)],
                        },
                    ),
                    ..config
                },
            )
        }),
{
    let (y, m, d) = date_of(date)->0;
    let config = config_of(text)->Ok_0;
    let head = seq!['['] + date + seq![']'];
    let line = label + seq![' ', '=', ' '] + value;
    let tail = section_text(date, label, value);
    let whole = text + seq!['\n'] + tail;
    let reading = lines_read(lines_of(text))->Ok_0;
    assert forall|i: int| 0 <= i < head.len() implies #[trigger] head[i] != '\n' by {
        if 0 < i < head.len() - 1 {
            assert(head[i] == date[i - 1]);
        }
    }
    let n = label.len() as int;
    assert forall|i: int| 0 <= i < line.len() implies #[trigger] line[i] != '\n' by {
        if i < n {
            assert(line[i] == label[i]);
        } else if i >= n + 3 {
            assert(line[i] == value[i - n - 3]);
        }
    }
    // The pieces of the section.
    let nothing = Seq::<char>::empty();
    lemma_split_both(head, '\n', line + seq!['\n']);
    lemma_split_both(line, '\n', nothing);
    assert(line + seq!['\n'] + nothing =~= line + seq!['\n']);
    assert(tail =~= head + seq!['\n'] + (line + seq!['\n']));
    lemma_split_push(nothing, '\n', head);
    lemma_split_push(nothing, '\n', line);
    assert(nothing + head =~= head);
    assert(nothing + line =~= line);
    assert(split_on(nothing, '\n') =~= seq![nothing]);
    assert(split_on(head, '\n') =~= seq![head]);
    assert(split_on(line, '\n') =~= seq![line]);
    lemma_split_both(text, '\n', tail);
    let pieces = split_on(text, '\n');
    let all = split_on(whole, '\n');
    assert(all =~= pieces.push(head).push(line).push(nothing));
    let stripped = Seq::new(pieces.len(), |i: int| crate::chars::without_cr(pieces[i]));
    assert(line.last() == value[value.len() - 1]);
    assert(crate::chars::without_cr(head) == head);
    assert(crate::chars::without_cr(line) == line);
    assert(lines_of(whole) =~= stripped.push(head).push(line));
    lemma_read_on(text);
    lemma_section_read(reading, date, label, value);
    lemma_two_more(stripped, head, line);
    let added = PeriodView {
        date: (y, m, d),
        start_secs: epoch_day(y, m, d) * 86400,
        expenses: seq![(label, value)],
    };
    let read = periods_read(reading);
    assert(read.push(added).drop_last() =~= read);
    lemma_chronological(read);
    let sorted = chronological(read);
    assert(sorted == config.periods);
    if sorted.len() > 0 {
        assert(config.periods[sorted.len() - 1].start_secs <= added.start_secs);
    }
    assert(inserted(sorted, added) =~= sorted.push(added));
}

/// A comment begins with a sharp sign that stands alone: after a blank, and before
/// a blank or the end of the line. What was said before it stays; a line that
/// begins with a sharp sign says nothing.
pub proof fn lemma_comments_go(said: Seq<char>, rest: Seq<char>)
    requires
        said.len() > 0,
        white_space(said[said.len() - 1]),
        trim_start(said + seq!['#'] + rest).len() > 0,
        forall|i: int| 0 <= i < said.len() ==> #[trigger] said[i] != '#',
        trim_start(said + seq!['#'] + rest)[0] != '#',
    ensures
        rest.len() == 0 || white_space(rest[0]) ==> uncommented(said + seq!['#'] + rest) == said,
        rest.len() > 0 && !white_space(rest[0]) && (forall|i: int|
            0 <= i < rest.len() ==> #[trigger] rest[i] != '#') ==> uncommented(
            said + seq!['#'] + rest,
        ) == said + seq!['#'] + rest,
{
    let raw = said + seq!['#'] + rest;
    let n = said.len() as int;
    assert(raw[n] == '#');
    assert(raw[n - 1] == said[n - 1]);
    assert(rest.len() > 0 ==> raw[n + 1] == rest[0]);
    assert forall|j: int| 0 <= j < n implies !#[trigger] comment_at(raw, j) by {
        assert(raw[j] == said[j]);
    }
    if rest.len() == 0 || white_space(rest[0]) {
        assert(said_until(raw, n));
        lemma_said_until(raw, n);
        assert(raw.take(n) =~= said);
    } else if forall|i: int| 0 <= i < rest.len() ==> #[trigger] rest[i] != '#' {
        let end = raw.len() as int;
        assert forall|j: int| 0 <= j < end implies !#[trigger] comment_at(raw, j) by {
            if j > n {
                assert(raw[j] == rest[j - n - 1]);
            }
        }
        assert(said_until(raw, end));
        lemma_said_until(raw, end);
        assert(raw.take(end) =~= raw);
    }
}

/// A line that begins with a sharp sign, after blanks or at once, is a comment as a
/// whole, and a line without one is none.
pub proof fn lemma_whole_comments(raw: Seq<char>)
    ensures
        raw.len() > 0 && raw[0] == '#' ==> uncommented(raw).len() == 0,
        trim_start(raw).len() > 0 && trim_start(raw)[0] == '#' ==> uncommented(raw).len() == 0,
        (forall|i: int| 0 <= i < raw.len() ==> #[trigger] raw[i] != '#') ==> (trim_start(raw).len()
            == 0 || trim_start(raw)[0] != '#' ==> uncommented(raw) == raw),
{
    if forall|i: int| 0 <= i < raw.len() ==> #[trigger] raw[i] != '#' {
        assert(said_until(raw, raw.len() as int));
        lemma_said_until(raw, raw.len() as int);
        assert(raw.take(raw.len() as int) =~= raw);
    }
}

/// A date is year, month and day with dashes between them, and one that the
/// calendar has.
pub proof fn lemma_dates_are(y: nat, m: nat, d: nat)
    ensures
        ({
            let text = decimal(y) + seq!['-'] + decimal(m) + seq!['-'] + decimal(d);
            y <= i32::MAX && m <= i32::MAX && d <= i32::MAX ==> date_of(text) == if valid_date(
                y as int,
                m as int,
                d as int,
            ) {
                Some((y as int, m as int, d as int))
            } else {
                None
            }
        }),
        date_of(decimal(y) + seq!['-'] + decimal(m)) is None,
        date_of(decimal(y)) is None,
{
    let (a, b, c) = (decimal(y), decimal(m), decimal(d));
    lemma_decimal_is(y);
    lemma_decimal_is(m);
    lemma_decimal_is(d);
    lemma_only_piece(y);
    lemma_only_piece(m);
    lemma_only_piece(d);
    lemma_split_both(a, '-', b);
    lemma_split_both(a + seq!['-'] + b, '-', c);
    let two = split_on(a + seq!['-'] + b, '-');
    assert(two =~= seq![a, b]);
    let three = split_on(a + seq!['-'] + b + seq!['-'] + c, '-');
    assert(three =~= seq![a, b, c]);
    lemma_number_kept(y);
    lemma_number_kept(m);
    lemma_number_kept(d);
}

proof fn lemma_only_piece(n: nat)
    ensures
        split_on(decimal(n), '-') == seq![decimal(n)],
{
    lemma_decimal_is(n);
    let none = Seq::<char>::empty();
    assert forall|i: int| 0 <= i < decimal(n).len() implies #[trigger] decimal(n)[i] != '-' by {
        assert(digit(decimal(n)[i]));
    }
    lemma_split_push(none, '-', decimal(n));
    assert(none + decimal(n) =~= decimal(n));
    assert(split_on(none, '-') =~= seq![none]);
    assert(split_on(decimal(n), '-') =~= seq![decimal(n)]);
}

proof fn lemma_number_kept(n: nat)
    ensures
        n <= i32::MAX ==> number_of(decimal(n)) == Some(n as int),
{
    let s = decimal(n);
    lemma_decimal_is(n);
    assert(digit(s[0]) && digit(s[s.len() - 1]));
    lemma_trim_is(s, 0, s.len() as int);
    assert(s.subrange(0, s.len() as int) =~= s);
    lemma_numbers_read_back(n, i32::MAX as nat, i32::MIN as int, s);
}

/// A heading is a text in brackets.
pub proof fn lemma_headings_are(line: Seq<char>, inner: Seq<char>)
    ensures
        header(seq!['['] + inner + seq![']']) == Some(inner),
        line.len() == 0 || line[0] != '[' || line[line.len() - 1] != ']' ==> header(line) is None,
{
    let all = seq!['['] + inner + seq![']'];
    assert(all.last() == ']');
    assert(all.subrange(1, all.len() - 1) =~= inner);
}

/// The dollar signs round an amount do not count, and neither do the blanks left
/// then.
pub proof fn lemma_dollar_signs_go(amount: Seq<char>)
    requires
        amount.len() > 0,
        amount[0] != '$',
        amount[amount.len() - 1] != '$',
    ensures
        without_dollars(amount) == trim(amount),
        without_dollars(seq!['$'] + amount) == trim(amount),
        without_dollars(amount + seq!['$']) == trim(amount),
{
    reveal_with_fuel(without_dollars_front, 2);
    reveal_with_fuel(without_dollars_back, 2);
    assert((seq!['$'] + amount).skip(1) =~= amount);
    assert((amount + seq!['$']).drop_last() =~= amount);
    assert((amount + seq!['$']).last() == '$');
    assert((amount + seq!['$'])[0] == amount[0]);
    assert(amount.last() != '$');
}

/// What a line sets. The three settings change only themselves, whatever the case
/// of their names; any other label with an amount is an expense of the open
/// section, behind those it has. Without a section that is an error, and in one
/// that is left out it is left out too. What is no amount changes nothing.
pub proof fn lemma_settings_are(reading: Reading, label: Seq<char>, value: Seq<char>)
    ensures
        label == "svg done dir"@ ==> set(reading, label, value) == Ok::<Reading, ConfigFault>(
            Reading { done_dir: value, ..reading },
        ),
        label == "svg templates dir"@ ==> set(reading, label, value) == Ok::<Reading, ConfigFault>(
            Reading { templates_dir: value, ..reading },
        ),
        label == "dollars per svg"@ && is_amount(without_dollars(value)) ==> set(
            reading,
            label,
            value,
        ) == Ok::<Reading, ConfigFault>(
            Reading { dollars_per_svg: Some(without_dollars(value)), ..reading },
        ),
        label == "dollars per svg"@ && !is_amount(without_dollars(value)) ==> set(
            reading,
            label,
            value,
        ) == Ok::<Reading, ConfigFault>(reading),
        label.len() != 12 && label.len() != 17 && label.len() != 15 ==> {
            &&& !is_amount(value) ==> set(reading, label, value) == Ok::<Reading, ConfigFault>(
                reading,
            )
            &&& is_amount(value) && reading.section is Before ==> set(reading, label, value)
                == Err::<Reading, ConfigFault>(ConfigFault::ExpenseBeforeSection)
            &&& is_amount(value) && reading.section is Skipped ==> set(reading, label, value)
                == Ok::<Reading, ConfigFault>(reading)
            &&& is_amount(value) ==> (reading.section matches Section::Open(period) ==> (set(
                reading,
                label,
                value,
            ) matches Ok(after) && after.closed == reading.closed && after.dollars_per_svg
                == reading.dollars_per_svg && after.done_dir == reading.done_dir
                && after.templates_dir == reading.templates_dir && after.section == Section::Open(
                PeriodView {
                    date: period.date,
                    start_secs: period.start_secs,
                    expenses: period.expenses.push((label, value)),
                },
            )))
        },
{
    reveal_strlit("svg done dir");
    reveal_strlit("svg templates dir");
    reveal_strlit("dollars per svg");
    assert("svg done dir"@.len() == 12);
    assert("svg templates dir"@.len() == 17);
    assert("dollars per svg"@.len() == 15);
}

/// A new section closes the one before it and starts at midnight of its date,
/// without expenses; one whose date is none is left out. The settings stay.
pub proof fn lemma_sections_open(reading: Reading, date: Seq<char>)
    ensures
        opened(reading, date).done_dir == reading.done_dir,
        opened(reading, date).templates_dir == reading.templates_dir,
        opened(reading, date).dollars_per_svg == reading.dollars_per_svg,
        reading.section matches Section::Open(period) ==> opened(reading, date).closed
            == reading.closed.push(period),
        !(reading.section is Open) ==> opened(reading, date).closed == reading.closed,
        date_of(trim(date)) is None ==> opened(reading, date).section is Skipped,
        date_of(trim(date)) matches Some((y, m, d)) ==> (opened(
            reading,
            date,
        ).section matches Section::Open(period) && period.date == (y, m, d) && period.start_secs
            == epoch_day(y, m, d) * 86400 && period.expenses.len() == 0),
{
}

/// Blank lines and comments change nothing. Any other line is a heading, or a
/// label and a value with an equals sign between them; one without it is an error
/// that shows the line.
pub proof fn lemma_lines_are_read(
    reading: Reading,
    raw: Seq<char>,
    label: Seq<char>,
    value: Seq<char>,
)
    ensures
        trim(uncommented(raw)).len() == 0 ==> line_read(reading, raw) == Ok::<Reading, ConfigFault>(
            reading,
        ),
        ({
            let line = trim(uncommented(raw));
            &&& line.len() > 0 && line[0] == '[' && line[line.len() - 1] == ']' && line.len() >= 2
                ==> line_read(reading, raw) == Ok::<Reading, ConfigFault>(
                opened(reading, line.subrange(1, line.len() - 1)),
            )
            &&& line.len() > 0 && line[0] != '[' && (forall|i: int|
                0 <= i < line.len() ==> #[trigger] line[i] != '=') ==> line_read(reading, raw)
                == Err::<Reading, ConfigFault>(ConfigFault::MissingEquals(raw))
            &&& line == label + seq!['='] + value && (label.len() == 0 || label[0] != '[') && (
            forall|i: int| 0 <= i < label.len() ==> #[trigger] label[i] != '=') ==> line_read(
                reading,
                raw,
            ) == set(reading, trim(label), trim(value))
        }),
{
    let line = trim(uncommented(raw));
    if line.len() > 0 && forall|i: int| 0 <= i < line.len() ==> #[trigger] line[i] != '=' {
        lemma_first_place(line, '=', line.len() as int);
    }
    if line == label + seq!['='] + value && forall|i: int|
        0 <= i < label.len() ==> #[trigger] label[i] != '=' {
        let n = label.len() as int;
        assert(line[n] == '=');
        assert forall|j: int| 0 <= j < n implies #[trigger] line[j] != '=' by {
            assert(line[j] == label[j]);
        }
        lemma_first_place(line, '=', n);
        assert(line.take(n) =~= label);
        assert(line.skip(n + 1) =~= value);
        assert(label.len() > 0 ==> line[0] == label[0]);
    }
}

/// Lines are read one after the other, and the first error ends the reading.
pub proof fn lemma_reading_goes_on(lines: Seq<Seq<char>>, line: Seq<char>)
    ensures
        lines_read(lines) matches Ok(reading) ==> lines_read(lines.push(line)) == line_read(
            reading,
            line,
        ),
        lines_read(lines) is Err ==> lines_read(lines.push(line)) == lines_read(lines),
        lines_read(Seq::empty()) matches Ok(reading) && reading.closed.len() == 0
            && reading.section is Before && reading.dollars_per_svg is None && reading.done_dir
            == "~/Desktop/allfiles/templates/done/"@ && reading.templates_dir
            == "~/Desktop/allfiles/templates/"@,
{
    assert(lines.push(line).drop_last() =~= lines);
}

/// The current period is the last that has begun; there is none before the first.
pub proof fn lemma_current_is(starts: Seq<i64>, now: int)
    ensures
        match current(starts, now) {
            Some(i) => 0 <= i < starts.len() && starts[i] <= now && forall|j: int|
                i < j < starts.len() ==> #[trigger] starts[j] > now,
            None => forall|j: int| 0 <= j < starts.len() ==> #[trigger] starts[j] > now,
        },
    decreases starts.len(),
{
    if starts.len() > 0 && starts.last() > now {
        lemma_current_is(starts.drop_last(), now);
        assert forall|j: int|
            (current(starts, now) matches Some(i) ==> i < j) && 0 <= j < starts.len() implies (
        #[trigger] starts[j]) > now by {
            if j < starts.len() - 1 {
                assert(starts[j] == starts.drop_last()[j]);
            }
        }
    }
}

/// A period counts from its start to the next one's, or to now where that is
/// earlier, and never less than nothing.
pub proof fn lemma_active_span(starts: Seq<i64>, now: int, i: int)
    requires
        0 <= i < starts.len(),
    ensures
        now <= starts[i] ==> active_at(starts, now, i) == 0,
        now > starts[i] && i + 1 == starts.len() ==> active_at(starts, now, i) == now - starts[i],
        now > starts[i] && i + 1 < starts.len() && now <= starts[i + 1] ==> active_at(
            starts,
            now,
            i,
        ) == now - starts[i],
        i + 1 < starts.len() && starts[i] <= starts[i + 1] <= now ==> active_at(starts, now, i)
            == starts[i + 1] - starts[i],
{
}

/// The amount of a line of the books is its last field, or the one before a note;
/// a line with fewer than two fields, or without an amount there, is no entry.
pub proof fn lemma_entries_are(raw: Seq<char>)
    ensures
        ({
            let line = trim(uncommented(raw));
            let fields = split_on(line, ',');
            let last = trim(fields[fields.len() - 1]);
            &&& line.len() == 0 ==> entry(raw) is None
            &&& fields.len() == 1 ==> entry(raw) is None
            &&& line.len() > 0 && fields.len() >= 2 && is_amount(last) ==> entry(raw) == Some(last)
            &&& line.len() > 0 && fields.len() == 2 && !is_amount(last) ==> entry(raw) is None
            &&& line.len() > 0 && fields.len() >= 3 && !is_amount(last) ==> entry(raw) == (
            if is_amount(trim(fields[fields.len() - 2])) {
                Some(trim(fields[fields.len() - 2]))
            } else {
                None
            })
        }),
{
    let fields = split_on(trim(uncommented(raw)), ',');
    lemma_split_on_nonempty(trim(uncommented(raw)), ',');
    assert(fields.last() == fields[fields.len() - 1]);
}

/// The entries of the books are those of their lines, in order; a count adds up
/// the numbers behind the last colons of its lines, and how many there were.
pub proof fn lemma_books_are(lines: Seq<Seq<char>>, line: Seq<char>)
    ensures
        entries(Seq::empty()).len() == 0,
        entries(lines.push(line)) == entries(lines) + (match entry(line) {
            Some(amount) => seq![amount],
            None => Seq::empty(),
        }),
        counted(Seq::empty()) == (0int, 0int),
        ({
            let pieces = split_on(line, ':');
            match unsigned_value(trim(pieces[pieces.len() - 1]), u64::MAX as nat) {
                Some(n) => counted(lines.push(line)) == (
                    counted(lines).0 + n,
                    counted(lines).1 + 1,
                ),
                None => counted(lines.push(line)) == counted(lines),
            }
        }),
{
    assert(lines.push(line).drop_last() =~= lines);
    lemma_split_on_nonempty(line, ':');
    assert(entries(lines.push(line)) =~= entries(lines) + (match entry(line) {
        Some(amount) => seq![amount],
        None => Seq::empty(),
    }));
}

/// The rows of the card stand below each other with their gaps, and the card ends
/// below the last.
pub proof fn lemma_card_layout(label_h: int, stat_h: int, balance_h: int, r: Layout)
    requires
        laid_out(label_h, stat_h, balance_h, r),
    ensures
        r.label_y == 12,
        r.balance_y - (r.label_y + label_h) == 4,
        r.fraction_y - (r.balance_y + balance_h) == 2,
        r.stats_y - (r.fraction_y + label_h) == 14,
        r.height - (r.stats_y + 36) == label_h || r.height - (r.stats_y + 36) == stat_h,
        r.height - (r.stats_y + 36) >= label_h,
        r.height - (r.stats_y + 36) >= stat_h,
{
}

/// What the card says: the balance in dollars and four places, green while it
/// lasts, orange when it is low and red when it is overdrawn or not known; what is
/// spent in a month and a day; and how many days are left, none when the balance is
/// low or gone and no end to them when nothing is spent.
pub proof fn lemma_card_says(figures: &Figures, r: BudgetView)
    requires
        shows(figures, r),
    ensures
        figures.remaining >= 0 ==> r.dollars@ == seq!['$'] + crate::money::grouped(
            decimal((figures.remaining as nat) / 10000),
        ),
        figures.remaining < 0 ==> r.dollars@ == seq!['-', '$'] + crate::money::grouped(
            decimal((-figures.remaining) as nat / 10000),
        ),
        r.fraction@.len() == 5,
        r.fraction@[0] == '.',
        figures.standing is Positive ==> r.color == 6,
        figures.standing is Low ==> r.color == 8,
        figures.standing is Overdrawn || figures.standing is Unknown ==> r.color == 9,
        r.monthly@ == money(figures.burn_cents as int) + "/mo"@,
        r.daily@ == money(figures.daily_cents as int) + "/day"@,
        figures.standing is Positive && figures.burning ==> r.days_left@ == figures.days_left@
            + seq!['d'],
        figures.standing is Positive && !figures.burning ==> r.days_left@ == "inf"@,
        figures.standing is Unknown ==> r.days_left@ == "inf"@,
        figures.standing is Low || figures.standing is Overdrawn ==> r.days_left@ == "0d"@,
{
    reveal_with_fuel(decimal, 5);
    let rest = magnitude(figures.remaining as int) % 10000;
    assert(decimal(rest).len() <= 4);
}

/// A row of the card has its label at the left edge's margin and its value at the
/// right one's.
pub proof fn lemma_rows_reach_margins(label: Seq<char>, value: Seq<char>, width: int, y: int)
    requires
        0 <= width <= 196,
    ensures
        row(label, value, width, y).len() == 2,
        row(label, value, width, y)[0] == (ShapeView::Text {
            font: 0,
            text: label,
            x: 14,
            y,
            color: 5,
        }),
        row(label, value, width, y)[1] matches ShapeView::Text { font, text, x, y: at, color }
            && font == 2 && text == value && x + width + 14 == 210 && at == y && color == 5,
{
}

/// The card's picture: the heading, the balance and its fraction in the middle, and
/// four rows twelve apart.
pub proof fn lemma_card_picture(view: &BudgetView, layout: Layout, stat_font: &BitmapFont)
    ensures
        ({
            let s = picture(view, layout, stat_font);
            let y = layout.stats_y as int;
            &&& s.len() == 11
            &&& s[0] == (ShapeView::Centered {
                font: 0,
                text: "MONEY LEFT"@,
                left: 0,
                width: 210,
                y: layout.label_y as int,
                color: 5,
            })
            &&& s[1] == (ShapeView::Tight {
                font: 1,
                text: view.dollars@,
                left: 0,
                width: 210,
                y: layout.balance_y as int,
                color: view.color,
            })
            &&& s[2] == (ShapeView::Centered {
                font: 0,
                text: view.fraction@,
                left: 0,
                width: 210,
                y: layout.fraction_y as int,
                color: view.color,
            })
            &&& s.subrange(3, 5) == row(
                "Monthly"@,
                view.monthly@,
                stat_font.width_of(view.monthly@),
                y,
            )
            &&& s.subrange(5, 7) == row(
                "Daily"@,
                view.daily@,
                stat_font.width_of(view.daily@),
                y + 12,
            )
            &&& s.subrange(7, 9) == row(
                "Days left"@,
                view.days_left@,
                stat_font.width_of(view.days_left@),
                y + 24,
            )
            &&& s.subrange(9, 11) == row(
                "~ svgs completed"@,
                view.svgs_completed@,
                stat_font.width_of(view.svgs_completed@),
                y + 36,
            )
        }),
{
    let s = picture(view, layout, stat_font);
    let y = layout.stats_y as int;
    let a = row("Monthly"@, view.monthly@, stat_font.width_of(view.monthly@), y);
    let b = row("Daily"@, view.daily@, stat_font.width_of(view.daily@), y + 12);
    let c = row("Days left"@, view.days_left@, stat_font.width_of(view.days_left@), y + 24);
    let d = row(
        "~ svgs completed"@,
        view.svgs_completed@,
        stat_font.width_of(view.svgs_completed@),
        y + 36,
    );
    assert(s.subrange(3, 5) =~= a);
    assert(s.subrange(5, 7) =~= b);
    assert(s.subrange(7, 9) =~= c);
    assert(s.subrange(9, 11) =~= d);
}

/// A file is read again when another one was found or it changed; nothing found
/// counts as no change.
pub proof fn lemma_files_seen(
    snapshot: FileSnapshot,
    path: Seq<char>,
    print: Option<Fingerprint>,
)
    ensures
        snapshot.differs(path, print) <==> !(path == snapshot.path@ && print
            == snapshot.fingerprint),
        seen(snapshot, None) == (snapshot.path@, snapshot.fingerprint),
        seen(snapshot, Some((path, print))) == (path, print),
{
}

/// The amounts of the periods are those of their expenses, period by period.
pub proof fn lemma_amounts_in_order(periods: Seq<PeriodView>, n: int, i: int)
    requires
        0 <= n < periods.len(),
        0 <= i < periods[n].expenses.len(),
    ensures
        period_amounts(periods, 0).len() == 0,
        period_amounts(periods, n + 1).len() == period_amounts(periods, n).len()
            + periods[n].expenses.len(),
        period_amounts(periods, n + 1).take(period_amounts(periods, n).len() as int)
            == period_amounts(periods, n),
        period_amounts(periods, n + 1)[period_amounts(periods, n).len() as int + i]
            == periods[n].expenses[i].1,
{
    assert(period_amounts(periods, n + 1).take(period_amounts(periods, n).len() as int)
        =~= period_amounts(periods, n));
}

/// A start that is known replaces a period's own, place by place, and changes
/// nothing else of it.
pub proof fn lemma_starts_replace(periods: Seq<PeriodView>, starts: Seq<Option<i64>>, i: int)
    requires
        0 <= i < periods.len(),
    ensures
        all_started(periods, starts).len() == periods.len(),
        all_started(periods, starts)[i].date == periods[i].date,
        all_started(periods, starts)[i].expenses == periods[i].expenses,
        starts[i] is None ==> all_started(periods, starts)[i] == periods[i],
        starts[i] matches Some(secs) ==> all_started(periods, starts)[i].start_secs == secs,
{
}

/// The configuration is read again when it was found, and is another file or has
/// changed; the ledger likewise, and also when it is gone. Of what was found the
/// last state is remembered, and of what was not nothing changes.
pub proof fn lemma_looks_lead(
    budgit: &Budgit,
    config: Option<(&str, Option<Fingerprint>)>,
    ledger: Option<(&str, Option<Fingerprint>)>,
    after: &Budgit,
    r: Reload,
)
    requires
        budgit.look_leads_to(config, ledger, after, r),
    ensures
        after.config == budgit.config,
        config is None ==> !r.config && after.config_snapshot.path@ == budgit.config_snapshot.path@
            && after.config_snapshot.fingerprint == budgit.config_snapshot.fingerprint,
        ledger is None ==> !r.ledger && after.ledger_snapshot.path@ == budgit.ledger_snapshot.path@
            && after.ledger_snapshot.fingerprint == budgit.ledger_snapshot.fingerprint,
        config matches Some((path, print)) ==> after.config_snapshot.path@ == path@
            && after.config_snapshot.fingerprint == print && (r.config <==> print is Some && (path@
            != budgit.config_snapshot.path@ || print != budgit.config_snapshot.fingerprint)),
        ledger matches Some((path, print)) ==> after.ledger_snapshot.path@ == path@
            && after.ledger_snapshot.fingerprint == print && (r.ledger <==> path@
            != budgit.ledger_snapshot.path@ || print != budgit.ledger_snapshot.fingerprint),
{
}

/// Two configurations are the same but for amounts when their folders, and their
/// periods with the labels of their expenses, are the same, one by one.
pub proof fn lemma_same_but_amounts_is(a: ConfigView, b: ConfigView, i: int, k: int)
    requires
        same_but_amounts(a, b),
        0 <= i < a.periods.len(),
        0 <= k < a.periods[i].expenses.len(),
    ensures
        same_but_amounts(a, a),
        a.done_dir == b.done_dir,
        a.templates_dir == b.templates_dir,
        a.periods.len() == b.periods.len(),
        a.periods[i].date == b.periods[i].date,
        a.periods[i].start_secs == b.periods[i].start_secs,
        a.periods[i].expenses.len() == b.periods[i].expenses.len(),
        a.periods[i].expenses[k].0 == b.periods[i].expenses[k].0,
{
    assert(period_but_amounts(a.periods[i], b.periods[i]));
}

/// A value that is too wide for its row begins at the left edge.
pub proof fn lemma_wide_rows(label: Seq<char>, value: Seq<char>, width: int, y: int)
    requires
        width > 196,
    ensures
        row(label, value, width, y).len() == 2,
        row(label, value, width, y)[1] matches ShapeView::Text { font, text, x, y: at, color }
            && font == 2 && text == value && x == 0 && at == y && color == 5,
{
}

/// A configuration that could not be read leaves the running one. One that was read
/// takes its place; the drawings are counted afresh exactly when a folder is another,
/// and then it says that something changed.
pub proof fn lemma_reloads_lead(
    before: &Budgit,
    config: Option<Config>,
    same_amounts: bool,
    after: &Budgit,
    r: (bool, bool),
)
    requires
        before.reload_leads_to(config, same_amounts, after, r),
    ensures
        config is None ==> *after == *before && !r.0 && !r.1,
        config matches Some(read) ==> after.config == read && after.config_snapshot
            == before.config_snapshot && after.ledger_snapshot == before.ledger_snapshot && (r.1
            <==> read.done_dir@ != before.config.done_dir@ || read.templates_dir@
            != before.config.templates_dir@) && (!same_amounts ==> r.0) && (r.1 ==> r.0) && (
        same_amounts && read@ == before.config@ ==> !r.0),
{
}

} // verus!
