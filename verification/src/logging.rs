//! Logging configuration, log file paths, and daily log files: their
//! names, their dates and which of them have expired.
use vstd::prelude::*;
use chrono::Datelike;

use crate::error::io_error_text;
use crate::paths::{join_path, path_file_name, path_file_name_spec, path_join};
use crate::text::{
    chars_of, decimal, digit_char, ends_with, owned, push_str, starts_with, string_of, sub_chars,
};

verus! {

/// The tracing filter used when none is configured.
pub open spec fn default_filter_text() -> Seq<char> {
    "info"@
}

pub fn default_filter() -> (s: String)
    ensures
        s@ == default_filter_text(),
{
    owned("info")
}

/// A log file: its directory and its name.
#[derive(Debug, Clone, PartialEq, Eq)]
pub struct LogFileConfig {
    pub directory: String,
    pub file_name: String,
}

impl LogFileConfig {
    pub fn new(directory: &str, file_name: &str) -> (r: Self)
        ensures
            r.directory@ == directory@,
            r.file_name@ == file_name@,
    {
        LogFileConfig { directory: owned(directory), file_name: owned(file_name) }
    }

    /// `logs/<product_slug>.log`.
    pub fn for_product(product_slug: &str) -> (r: Self)
        ensures
            r.directory@ == "logs"@,
            r.file_name@ == product_slug@ + ".log"@,
    {
        let mut name = owned(product_slug);
        push_str(&mut name, ".log");
        LogFileConfig { directory: owned("logs"), file_name: name }
    }

    /// The file name joined onto the directory.
    pub fn path(&self) -> (p: String)
        ensures
            p@ == path_join(self.directory@, self.file_name@),
    {
        join_path(self.directory.as_str(), self.file_name.as_str())
    }
}

/// Where log lines go.
#[derive(Debug, Clone, PartialEq, Eq)]
pub enum LogTarget {
    Stdout,
    File(LogFileConfig),
}

/// A tracing subscriber's filter, target and formatting.
#[derive(Debug, Clone, PartialEq, Eq)]
pub struct LoggingConfig {
    pub env_filter: String,
    pub target: LogTarget,
    pub ansi: bool,
    pub include_target: bool,
}

impl LoggingConfig {
    /// Logging to standard output, with colours and targets.
    pub fn stdout(env_filter: &str) -> (r: Self)
        ensures
            r.env_filter@ == env_filter@,
            r.target == LogTarget::Stdout,
            r.ansi,
            r.include_target,
    {
        LoggingConfig { env_filter: owned(env_filter), target: LogTarget::Stdout, ansi: true, include_target: true }
    }

    /// Logging to a file, without colours, with targets.
    pub fn file(env_filter: &str, file: LogFileConfig) -> (r: Self)
        ensures
            r.env_filter@ == env_filter@,
            r.target == LogTarget::File(file),
            !r.ansi,
            r.include_target,
    {
        LoggingConfig { env_filter: owned(env_filter), target: LogTarget::File(file), ansi: false, include_target: true }
    }

    pub fn with_ansi(self, ansi: bool) -> (r: Self)
        ensures
            r == (LoggingConfig { ansi, ..self }),
    {
        LoggingConfig { ansi, ..self }
    }

    pub fn with_target(self, include_target: bool) -> (r: Self)
        ensures
            r == (LoggingConfig { include_target, ..self }),
    {
        LoggingConfig { include_target, ..self }
    }
}

impl Default for LoggingConfig {
    /// Standard output with the default filter.
    fn default() -> (r: Self)
        ensures
            r.env_filter@ == default_filter_text(),
            r.target == LogTarget::Stdout,
            r.ansi,
            r.include_target,
    {
        LoggingConfig { env_filter: default_filter(), target: LogTarget::Stdout, ansi: true, include_target: true }
    }
}

/// Whether `EnvFilter::try_new(directives)` accepts the directives.
pub uninterp spec fn env_filter_valid(directives: Seq<char>) -> bool;

/// `tracing_subscriber::EnvFilter::try_new`, telling whether the directives
/// parse; this depends on the text alone.
#[verifier::external_body]
fn env_filter_parses(directives: &str) -> (r: bool)
    ensures
        r == env_filter_valid(directives@),
{
    tracing_subscriber::EnvFilter::try_new(directives).is_ok()
}

/// The filter a subscriber is set up with: the configured one when it
/// parses, else the default filter.
pub open spec fn effective_filter_text(env_filter: Seq<char>) -> Seq<char> {
    if env_filter_valid(env_filter) {
        env_filter
    } else {
        default_filter_text()
    }
}

impl LoggingConfig {
    /// The filter directives to install: the configured filter, or the
    /// default one when the configured filter does not parse.
    pub fn effective_env_filter(&self) -> (r: String)
        ensures
            r@ == effective_filter_text(self.env_filter@),
    {
        if env_filter_parses(self.env_filter.as_str()) {
            owned(self.env_filter.as_str())
        } else {
            default_filter()
        }
    }
}

/// Logging into one file per day, optionally also to standard output.
#[derive(Debug, Clone, PartialEq, Eq)]
pub struct DailyLoggingConfig {
    pub directory: String,
    pub file_prefix: String,
    pub env_filter: String,
    pub stdout: bool,
    pub ansi: bool,
    pub include_target: bool,
}

impl DailyLoggingConfig {
    /// The default filter, standard output on, no colours, no targets.
    pub fn new(directory: &str, file_prefix: &str) -> (r: Self)
        ensures
            r.directory@ == directory@,
            r.file_prefix@ == file_prefix@,
            r.env_filter@ == default_filter_text(),
            r.stdout,
            !r.ansi,
            !r.include_target,
    {
        DailyLoggingConfig {
            directory: owned(directory),
            file_prefix: owned(file_prefix),
            env_filter: default_filter(),
            stdout: true,
            ansi: false,
            include_target: false,
        }
    }

    pub fn with_env_filter(self, env_filter: &str) -> (r: Self)
        ensures
            r.env_filter@ == env_filter@,
            r.directory == self.directory,
            r.file_prefix == self.file_prefix,
            r.stdout == self.stdout,
            r.ansi == self.ansi,
            r.include_target == self.include_target,
    {
        DailyLoggingConfig { env_filter: owned(env_filter), ..self }
    }

    pub fn with_stdout(self, enabled: bool) -> (r: Self)
        ensures
            r == (DailyLoggingConfig { stdout: enabled, ..self }),
    {
        DailyLoggingConfig { stdout: enabled, ..self }
    }

    pub fn with_ansi(self, ansi: bool) -> (r: Self)
        ensures
            r == (DailyLoggingConfig { ansi, ..self }),
    {
        DailyLoggingConfig { ansi, ..self }
    }

    pub fn with_target(self, include_target: bool) -> (r: Self)
        ensures
            r == (DailyLoggingConfig { include_target, ..self }),
    {
        DailyLoggingConfig { include_target, ..self }
    }
}

/// Which daily log files to delete: those older than the retention window.
#[derive(Debug, Clone, PartialEq, Eq)]
pub struct DailyLogCleanupConfig {
    pub directory: String,
    pub file_prefix: String,
    pub retention_days: u64,
}

impl DailyLogCleanupConfig {
    pub fn new(directory: &str, file_prefix: &str, retention_days: u64) -> (r: Self)
        ensures
            r.directory@ == directory@,
            r.file_prefix@ == file_prefix@,
            r.retention_days == retention_days,
    {
        DailyLogCleanupConfig { directory: owned(directory), file_prefix: owned(file_prefix), retention_days }
    }
}

/// Errors of logging setup.
#[derive(Debug)]
pub enum LoggingError {
    Io(std::io::Error),
    EnvFilter(String),
    Subscriber(String),
}

impl LoggingError {
    /// The human-readable form of the error.
    pub fn to_display_string(&self) -> (s: String)
        ensures
            self matches LoggingError::Io(_) ==> "io error: "@.is_prefix_of(s@),
            self matches LoggingError::EnvFilter(m) ==> s@ == "invalid tracing env filter: "@ + m@,
            self matches LoggingError::Subscriber(m) ==> s@ == "failed to initialize tracing subscriber: "@
                + m@,
    {
        let (prefix, detail) = match self {
            LoggingError::Io(e) => ("io error: ", io_error_text(e)),
            LoggingError::EnvFilter(m) => ("invalid tracing env filter: ", owned(m.as_str())),
            LoggingError::Subscriber(m) => ("failed to initialize tracing subscriber: ", owned(m.as_str())),
        };
        let mut s = owned(prefix);
        push_str(&mut s, detail.as_str());
        assert(prefix@.is_prefix_of(s@));
        s
    }
}

/// The file name joined onto the directory.
pub fn log_file_path(directory: &str, file_name: &str) -> (p: String)
    ensures
        p@ == path_join(directory@, file_name@),
{
    join_path(directory, file_name)
}

// ---------------------------------------------------------------------------
// Calendar dates of daily log files
// ---------------------------------------------------------------------------

/// A leap year of the proleptic Gregorian calendar.
pub open spec fn is_leap_year(year: int) -> bool {
    (year % 4 == 0 && year % 100 != 0) || year % 400 == 0
}

/// The number of days of a month (1 to 12) of a year.
pub open spec fn days_in_month(year: int, month: int) -> int {
    if month == 2 {
        if is_leap_year(year) { 29 } else { 28 }
    } else if month == 4 || month == 6 || month == 9 || month == 11 {
        30
    } else {
        31
    }
}

/// Whether `NaiveDate::from_ymd_opt(year, month, day)` gives a date: a
/// year in chrono's range `-262143..=262142`, a month from 1 to 12 and a
/// day of that month.
pub open spec fn valid_ymd(year: i32, month: u32, day: u32) -> bool {
    &&& -262143 <= year <= 262142
    &&& 1 <= month <= 12
    &&& 1 <= day <= days_in_month(year as int, month as int)
}

/// `checked_sub_days(Days::new(days))` of the date `year-month-day`, as a
/// year, month and day.
pub uninterp spec fn ymd_minus_days(year: i32, month: u32, day: u32, days: u64) -> Option<(i32, u32, u32)>;

/// `n` in decimal, zero-padded to at least `width` digits.
pub open spec fn zero_padded(n: nat, width: nat) -> Seq<char> {
    let d = decimal(n);
    if d.len() >= width {
        d
    } else {
        Seq::new((width - d.len()) as nat, |i: int| '0') + d
    }
}

/// A year as `%Y` writes it: four digits, zero-padded, for years 0 to 9999;
/// outside that range with a sign before at least four digits.
pub open spec fn year_text(year: int) -> Seq<char> {
    if 0 <= year <= 9999 {
        zero_padded(year as nat, 4)
    } else if year > 9999 {
        seq!['+'] + zero_padded(year as nat, 4)
    } else {
        seq!['-'] + zero_padded((-year) as nat, 4)
    }
}

/// `format("%Y-%m-%d")` of the date `year-month-day`: the year, then the
/// month and the day as two zero-padded digits, separated by `-`.
pub open spec fn ymd_format(year: i32, month: u32, day: u32) -> Seq<char> {
    year_text(year as int) + seq!['-'] + zero_padded(month as nat, 2) + seq!['-'] + zero_padded(
        day as nat,
        2,
    )
}

/// `NaiveDate::parse_from_str(text, "%Y-%m-%d")`, as a year, month and day.
pub uninterp spec fn ymd_parse(text: Seq<char>) -> Option<(i32, u32, u32)>;

/// `NaiveDate::from_ymd_opt`, telling whether the date exists.
#[verifier::external_body]
fn chrono_ymd_valid(year: i32, month: u32, day: u32) -> (r: bool)
    ensures
        r == valid_ymd(year, month, day),
{
    chrono::NaiveDate::from_ymd_opt(year, month, day).is_some()
}

/// `NaiveDate::checked_sub_days` of an existing date; what comes out is a
/// `NaiveDate`, so its year, month and day form an existing date.
#[verifier::external_body]
fn chrono_sub_days(year: i32, month: u32, day: u32, days: u64) -> (r: Option<(i32, u32, u32)>)
    requires
        valid_ymd(year, month, day),
    ensures
        r == ymd_minus_days(year, month, day, days),
        r matches Some(d) ==> valid_ymd(d.0, d.1, d.2),
{
    let date = chrono::NaiveDate::from_ymd_opt(year, month, day).unwrap();
    date.checked_sub_days(chrono::Days::new(days)).map(|d| (d.year(), d.month(), d.day()))
}

/// `date.format("%Y-%m-%d").to_string()` of an existing date.
#[verifier::external_body]
fn chrono_format_ymd(year: i32, month: u32, day: u32) -> (r: String)
    requires
        valid_ymd(year, month, day),
    ensures
        r@ == ymd_format(year, month, day),
{
    let date = chrono::NaiveDate::from_ymd_opt(year, month, day).unwrap();
    date.format("%Y-%m-%d").to_string()
}

/// `NaiveDate::parse_from_str(text, "%Y-%m-%d").ok()`; what comes out is a
/// `NaiveDate`, so its year, month and day form an existing date.
#[verifier::external_body]
fn chrono_parse_ymd(text: &str) -> (r: Option<(i32, u32, u32)>)
    ensures
        r == ymd_parse(text@),
        r matches Some(d) ==> valid_ymd(d.0, d.1, d.2),
{
    chrono::NaiveDate::parse_from_str(text, "%Y-%m-%d").ok().map(|d| (d.year(), d.month(), d.day()))
}

/// A calendar date of the proleptic Gregorian calendar, in the range of
/// `chrono::NaiveDate`.
#[derive(Debug, Clone, Copy, PartialEq, Eq)]
pub struct LogDate {
    year: i32,
    month: u32,
    day: u32,
}

impl View for LogDate {
    type V = (i32, u32, u32);

    closed spec fn view(&self) -> (i32, u32, u32) {
        (self.year, self.month, self.day)
    }
}

/// Date `a` comes before date `b`: by year, then month, then day.
pub open spec fn ymd_before(a: (i32, u32, u32), b: (i32, u32, u32)) -> bool {
    a.0 < b.0 || (a.0 == b.0 && (a.1 < b.1 || (a.1 == b.1 && a.2 < b.2)))
}

impl LogDate {
    #[verifier::type_invariant]
    spec fn exists_in_calendar(self) -> bool {
        valid_ymd(self.year, self.month, self.day)
    }

    /// The date `year-month-day`, if it exists.
    pub fn from_ymd(year: i32, month: u32, day: u32) -> (r: Option<Self>)
        ensures
            r is Some <==> valid_ymd(year, month, day),
            r matches Some(d) ==> d@ == (year, month, day),
    {
        if chrono_ymd_valid(year, month, day) {
            Some(LogDate { year, month, day })
        } else {
            None
        }
    }

    pub fn year(&self) -> (y: i32)
        ensures
            y == self@.0,
    {
        self.year
    }

    pub fn month(&self) -> (m: u32)
        ensures
            m == self@.1,
    {
        self.month
    }

    pub fn day(&self) -> (d: u32)
        ensures
            d == self@.2,
    {
        self.day
    }

    /// The date `days` days earlier, if it is in range.
    pub fn checked_sub_days(self, days: u64) -> (r: Option<Self>)
        ensures
            r matches Some(d) ==> ymd_minus_days(self@.0, self@.1, self@.2, days) == Some(d@),
            r is None ==> ymd_minus_days(self@.0, self@.1, self@.2, days) is None,
    {
        proof {
            use_type_invariant(self);
        }
        match chrono_sub_days(self.year, self.month, self.day, days) {
            Some((y, m, d)) => Some(LogDate { year: y, month: m, day: d }),
            None => None,
        }
    }

    /// Whether this date comes before `other`.
    pub fn is_before(&self, other: &Self) -> (r: bool)
        ensures
            r == ymd_before(self@, other@),
    {
        self.year < other.year || (self.year == other.year && (self.month < other.month || (
        self.month == other.month && self.day < other.day)))
    }

    /// The date as `YYYY-MM-DD`.
    pub fn to_ymd_string(&self) -> (s: String)
        ensures
            s@ == ymd_format(self@.0, self@.1, self@.2),
    {
        proof {
            use_type_invariant(self);
        }
        chrono_format_ymd(self.year, self.month, self.day)
    }

    /// Parses `YYYY-MM-DD`.
    pub fn parse_ymd(text: &str) -> (r: Option<Self>)
        ensures
            r matches Some(d) ==> ymd_parse(text@) == Some(d@),
            r is None ==> ymd_parse(text@) is None,
    {
        match chrono_parse_ymd(text) {
            Some((y, m, d)) => Some(LogDate { year: y, month: m, day: d }),
            None => None,
        }
    }
}

/// The name of the daily log file of a date: `<prefix>-<YYYY-MM-DD>.log`.
pub open spec fn daily_log_name(file_prefix: Seq<char>, date: (i32, u32, u32)) -> Seq<char> {
    file_prefix + "-"@ + ymd_format(date.0, date.1, date.2) + ".log"@
}

/// The daily log file of `date` in `directory`.
pub fn daily_log_file_path(directory: &str, file_prefix: &str, date: LogDate) -> (p: String)
    ensures
        p@ == path_join(directory@, daily_log_name(file_prefix@, date@)),
{
    let mut name = owned(file_prefix);
    push_str(&mut name, "-");
    let text = date.to_ymd_string();
    push_str(&mut name, text.as_str());
    push_str(&mut name, ".log");
    join_path(directory, name.as_str())
}

/// The date in the name of a daily log file with the given prefix: the
/// file name must be `<prefix>-<date>.log` with a `YYYY-MM-DD` date.
pub open spec fn daily_log_date_of(path: Seq<char>, file_prefix: Seq<char>) -> Option<(i32, u32, u32)> {
    match path_file_name_spec(path) {
        None => None,
        Some(name) => {
            let head = file_prefix + "-"@;
            if head.is_prefix_of(name) && ".log"@.is_suffix_of(name.skip(head.len() as int)) {
                let rest = name.skip(head.len() as int);
                ymd_parse(rest.take(rest.len() - 4))
            } else {
                None
            }
        },
    }
}

/// The date of a daily log file, from its file name.
pub fn parse_daily_log_date(path: &str, file_prefix: &str) -> (r: Option<LogDate>)
    ensures
        r matches Some(d) ==> daily_log_date_of(path@, file_prefix@) == Some(d@),
        r is None ==> daily_log_date_of(path@, file_prefix@) is None,
{
    proof {
        reveal_strlit(".log");
        reveal_strlit("-");
    }
    let name = match path_file_name(path) {
        Some(n) => n,
        None => return None,
    };
    let mut head = owned(file_prefix);
    push_str(&mut head, "-");
    let nv = chars_of(name.as_str());
    let hv = chars_of(head.as_str());
    if !starts_with(&nv, &hv) {
        return None;
    }
    let rest = sub_chars(&nv, hv.len(), nv.len());
    assert(rest@ == nv@.skip(hv.len() as int));
    let suffix = chars_of(".log");
    if !ends_with(&rest, &suffix) {
        return None;
    }
    let date_part = sub_chars(&rest, 0, rest.len() - 4);
    assert(date_part@ == rest@.take(rest.len() - 4));
    let text = string_of(&date_part);
    LogDate::parse_ymd(text.as_str())
}

/// A file of `file_date` has expired `retention_days` after `today` when
/// its date comes before the cutoff, `today` minus the retention days.
pub open spec fn expired_by(file_date: (i32, u32, u32), today: (i32, u32, u32), retention_days: u64) -> bool {
    match ymd_minus_days(today.0, today.1, today.2, retention_days) {
        Some(cutoff) => ymd_before(file_date, cutoff),
        None => false,
    }
}

/// The oldest date that is kept: `today` minus the retention days, if in range.
pub fn daily_log_cutoff(today: LogDate, retention_days: u64) -> (r: Option<LogDate>)
    ensures
        r matches Some(d) ==> ymd_minus_days(today@.0, today@.1, today@.2, retention_days) == Some(d@),
        r is None ==> ymd_minus_days(today@.0, today@.1, today@.2, retention_days) is None,
{
    today.checked_sub_days(retention_days)
}

/// Whether a log file of `file_date` has expired; the cutoff must be in
/// the calendar's range.
pub fn is_daily_log_expired(file_date: LogDate, today: LogDate, retention_days: u64) -> (r: bool)
    requires
        ymd_minus_days(today@.0, today@.1, today@.2, retention_days) is Some,
    ensures
        r == expired_by(file_date@, today@, retention_days),
{
    match daily_log_cutoff(today, retention_days) {
        Some(cutoff) => file_date.is_before(&cutoff),
        None => false,
    }
}

/// Whether a log file of `file_date` has expired, or `None` when the cutoff
/// lies outside the calendar's range.
pub fn daily_log_expiry(file_date: LogDate, today: LogDate, retention_days: u64) -> (r: Option<bool>)
    ensures
        r is None <==> ymd_minus_days(today@.0, today@.1, today@.2, retention_days) is None,
        r matches Some(b) ==> b == expired_by(file_date@, today@, retention_days),
{
    let cutoff = daily_log_cutoff(today, retention_days);
    match cutoff {
        Some(_) => Some(is_daily_log_expired(file_date, today, retention_days)),
        None => None,
    }
}

/// What a cleanup does with one directory entry.
#[derive(Debug, Clone, Copy, PartialEq, Eq, Structural)]
pub enum CleanupAction {
    /// Not a daily log file of the prefix: left alone, not counted.
    Skip,
    /// A daily log file inside the retention window.
    Keep,
    /// An expired daily log file.
    Delete,
}

/// The action for an entry: files named as daily logs of the prefix are
/// deleted when their date is before the cutoff, kept otherwise.
pub open spec fn cleanup_action_of(
    path: Seq<char>,
    is_file: bool,
    file_prefix: Seq<char>,
    cutoff: (i32, u32, u32),
) -> CleanupAction {
    if !is_file {
        CleanupAction::Skip
    } else {
        match daily_log_date_of(path, file_prefix) {
            None => CleanupAction::Skip,
            Some(d) => if ymd_before(d, cutoff) {
                CleanupAction::Delete
            } else {
                CleanupAction::Keep
            },
        }
    }
}

/// What a cleanup found and deleted.
#[derive(Debug, Clone, PartialEq, Eq)]
pub struct DailyLogCleanupReport {
    pub directory: String,
    pub file_prefix: String,
    pub retention_days: u64,
    pub cutoff: LogDate,
    pub scanned: u64,
    pub deleted: u64,
}

impl DailyLogCleanupReport {
    /// The empty report of a cleanup run on `today`, or `None` when the
    /// cutoff lies outside the calendar's range.
    pub fn begin(config: &DailyLogCleanupConfig, today: LogDate) -> (r: Option<Self>)
        ensures
            r is None <==> ymd_minus_days(today@.0, today@.1, today@.2, config.retention_days) is None,
            r matches Some(rep) ==> {
                &&& rep.directory@ == config.directory@
                &&& rep.file_prefix@ == config.file_prefix@
                &&& rep.retention_days == config.retention_days
                &&& ymd_minus_days(today@.0, today@.1, today@.2, config.retention_days) == Some(
                    rep.cutoff@,
                )
                &&& rep.scanned == 0
                &&& rep.deleted == 0
            },
    {
        match daily_log_cutoff(today, config.retention_days) {
            Some(cutoff) => Some(
                DailyLogCleanupReport {
                    directory: owned(config.directory.as_str()),
                    file_prefix: owned(config.file_prefix.as_str()),
                    retention_days: config.retention_days,
                    cutoff,
                    scanned: 0,
                    deleted: 0,
                },
            ),
            None => None,
        }
    }

    /// What to do with a directory entry; `is_file` tells whether it is a
    /// regular file.
    pub fn action_for(&self, path: &str, is_file: bool) -> (a: CleanupAction)
        ensures
            a == cleanup_action_of(path@, is_file, self.file_prefix@, self.cutoff@),
    {
        if !is_file {
            return CleanupAction::Skip;
        }
        match parse_daily_log_date(path, self.file_prefix.as_str()) {
            None => CleanupAction::Skip,
            Some(d) => if d.is_before(&self.cutoff) {
                CleanupAction::Delete
            } else {
                CleanupAction::Keep
            },
        }
    }

    /// Counts a done action: kept and deleted files were scanned, deleted
    /// files were deleted.
    pub fn record(&mut self, action: CleanupAction)
        requires
            old(self).scanned < u64::MAX,
            old(self).deleted < u64::MAX,
        ensures
            final(self).directory == old(self).directory,
            final(self).file_prefix == old(self).file_prefix,
            final(self).retention_days == old(self).retention_days,
            final(self).cutoff == old(self).cutoff,
            final(self).scanned == old(self).scanned + if action == CleanupAction::Skip { 0int } else { 1 },
            final(self).deleted == old(self).deleted + if action == CleanupAction::Delete { 1int } else { 0 },
    {
        match action {
            CleanupAction::Skip => {},
            CleanupAction::Keep => {
                self.scanned = self.scanned + 1;
            },
            CleanupAction::Delete => {
                self.scanned = self.scanned + 1;
                self.deleted = self.deleted + 1;
            },
        }
    }

    /// The scanned files that were not deleted.
    pub fn kept(&self) -> (n: u64)
        ensures
            n == (if self.scanned >= self.deleted { self.scanned - self.deleted } else { 0 }),
    {
        self.scanned.saturating_sub(self.deleted)
    }
}


proof fn lemma_decimal_no_slash(n: nat)
    ensures
        forall|i: int| 0 <= i < decimal(n).len() ==> decimal(n)[i] != '/',
    decreases n,
{
    if n >= 10 {
        lemma_decimal_no_slash(n / 10);
        let d = decimal(n);
        assert(d == decimal(n / 10).push(digit_char(n % 10)));
        assert forall|i: int| 0 <= i < d.len() implies d[i] != '/' by {
            if i < d.len() - 1 {
                assert(d[i] == decimal(n / 10)[i]);
            }
        }
    } else {
        assert(decimal(n) == seq![digit_char(n)]);
    }
}

proof fn lemma_zero_padded_no_slash(n: nat, width: nat)
    ensures
        forall|i: int| 0 <= i < zero_padded(n, width).len() ==> zero_padded(n, width)[i] != '/',
{
    lemma_decimal_no_slash(n);
    let d = decimal(n);
    if d.len() < width {
        let z = Seq::new((width - d.len()) as nat, |i: int| '0');
        assert forall|i: int| 0 <= i < (z + d).len() implies (z + d)[i] != '/' by {
            if i >= z.len() {
                assert((z + d)[i] == d[i - z.len()]);
            }
        }
    }
}

/// The text of a date holds no `/`.
proof fn lemma_ymd_format_no_slash(year: i32, month: u32, day: u32)
    ensures
        forall|i: int|
            0 <= i < ymd_format(year, month, day).len() ==> ymd_format(year, month, day)[i] != '/',
{
    let y = year_text(year as int);
    if 0 <= year <= 9999 {
        lemma_zero_padded_no_slash(year as nat, 4);
    } else if year > 9999 {
        lemma_zero_padded_no_slash(year as nat, 4);
        let p = zero_padded(year as nat, 4);
        assert forall|i: int| 0 <= i < y.len() implies y[i] != '/' by {
            if i > 0 {
                assert(y[i] == p[i - 1]);
            }
        }
    } else {
        lemma_zero_padded_no_slash((-year) as nat, 4);
        let p = zero_padded((-year) as nat, 4);
        assert forall|i: int| 0 <= i < y.len() implies y[i] != '/' by {
            if i > 0 {
                assert(y[i] == p[i - 1]);
            }
        }
    }
    let m = zero_padded(month as nat, 2);
    let d = zero_padded(day as nat, 2);
    lemma_zero_padded_no_slash(month as nat, 2);
    lemma_zero_padded_no_slash(day as nat, 2);
    let t = ymd_format(year, month, day);
    assert(t == y + seq!['-'] + m + seq!['-'] + d);
    assert forall|i: int| 0 <= i < t.len() implies t[i] != '/' by {
        let a = y.len() as int;
        let b = a + 1 + m.len();
        if i < a {
            assert(t[i] == y[i]);
        } else if i == a {
            assert(t[i] == '-');
        } else if i < b {
            assert(t[i] == m[i - a - 1]);
        } else if i == b {
            assert(t[i] == '-');
        } else {
            assert(t[i] == d[i - b - 1]);
        }
    }
}

/// A daily log file is recognised again by its date: in any directory, the
/// file path made for a date parses back to that date, for a prefix without
/// `/` and a date whose `YYYY-MM-DD` text parses back to it.
pub proof fn law_daily_log_path_round_trip(
    directory: Seq<char>,
    file_prefix: Seq<char>,
    date: (i32, u32, u32),
)
    requires
        forall|i: int| 0 <= i < file_prefix.len() ==> file_prefix[i] != '/',
        ymd_parse(ymd_format(date.0, date.1, date.2)) == Some(date),
    ensures
        daily_log_date_of(path_join(directory, daily_log_name(file_prefix, date)), file_prefix) == Some(
            date,
        ),
{
    reveal_strlit("-");
    reveal_strlit(".log");
    let text = ymd_format(date.0, date.1, date.2);
    lemma_ymd_format_no_slash(date.0, date.1, date.2);
    let head = file_prefix + "-"@;
    let name = daily_log_name(file_prefix, date);
    assert(name == head + text + ".log"@);
    assert forall|i: int| 0 <= i < name.len() implies name[i] != '/' by {
        if i < file_prefix.len() {
            assert(name[i] == file_prefix[i]);
        } else if i < head.len() {
            assert(name[i] == '-');
        } else if i < head.len() + text.len() {
            assert(name[i] == text[i - head.len()]);
        } else {
            assert(name[i] == ".log"@[i - head.len() - text.len()]);
        }
    }
    assert(name.len() >= 5);
    crate::paths::lemma_file_name_of_join(directory, name);
    assert(head.is_prefix_of(name)) by {
        assert(name.subrange(0, head.len() as int) =~= head);
    }
    let rest = name.skip(head.len() as int);
    assert(rest =~= text + ".log"@);
    assert(".log"@.is_suffix_of(rest)) by {
        assert(rest.subrange(rest.len() - 4, rest.len() as int) =~= ".log"@);
    }
    assert(rest.take(rest.len() - 4) =~= text);
}

} // verus!
