use rustzen_core::logging::{
    daily_log_cutoff, daily_log_expiry, daily_log_file_path, default_filter, is_daily_log_expired,
    log_file_path, parse_daily_log_date, CleanupAction, DailyLogCleanupConfig,
    DailyLogCleanupReport, DailyLoggingConfig, LogDate, LogFileConfig, LogTarget, LoggingConfig,
    LoggingError,
};

fn date(y: i32, m: u32, d: u32) -> LogDate {
    LogDate::from_ymd(y, m, d).unwrap()
}

#[test]
fn file_config_builds_path() {
    let config = LogFileConfig::new("logs", "server.log");
    assert_eq!(config.path(), "logs/server.log");
}

#[test]
fn default_stdout_filter_is_info() {
    let config = LoggingConfig::default();
    assert_eq!(config.env_filter, "info");
}

#[test]
fn daily_log_file_path_uses_prefix_and_date() {
    let path = daily_log_file_path("logs", "server", date(2026, 4, 3));
    assert_eq!(path, "logs/server-2026-04-03.log");
}

#[test]
fn parse_daily_log_date_returns_date_for_matching_file_name() {
    let file_date =
        parse_daily_log_date("logs/server-2026-04-03.log", "server").expect("expected log date");

    assert_eq!(file_date, date(2026, 4, 3));
}

#[test]
fn parse_daily_log_date_ignores_non_matching_file_name() {
    assert!(parse_daily_log_date("logs/other-2026-04-03.log", "server").is_none());
}

#[test]
fn is_daily_log_expired_matches_retention_window() {
    let today = date(2026, 4, 15);
    let expired_date = today.checked_sub_days(10).unwrap();
    let recent_date = today.checked_sub_days(1).unwrap();

    assert!(is_daily_log_expired(expired_date, today, 7));
    assert!(!is_daily_log_expired(recent_date, today, 7));
    assert!(!is_daily_log_expired(today, today, 7));
}

#[test]
fn dates_exist_in_calendar() {
    assert!(LogDate::from_ymd(2024, 2, 29).is_some());
    assert!(LogDate::from_ymd(2026, 2, 29).is_none());
    assert!(LogDate::from_ymd(2026, 13, 1).is_none());
    let d = date(2026, 3, 1);
    assert_eq!((d.year(), d.month(), d.day()), (2026, 3, 1));
    assert_eq!(d.checked_sub_days(1).unwrap(), date(2026, 2, 28));
    assert_eq!(d.to_ymd_string(), "2026-03-01");
    assert!(date(2025, 12, 31).is_before(&d));
    assert!(!d.is_before(&d));
    assert_eq!(LogDate::parse_ymd("2026-03-01"), Some(d));
    assert_eq!(LogDate::parse_ymd("2026-02-30"), None);
}

#[test]
fn cutoff_is_retention_days_back() {
    let today = date(2026, 4, 15);
    assert_eq!(daily_log_cutoff(today, 7), Some(date(2026, 4, 8)));
    assert!(!is_daily_log_expired(date(2026, 4, 8), today, 7));
    assert!(is_daily_log_expired(date(2026, 4, 7), today, 7));
    assert_eq!(daily_log_cutoff(today, u64::MAX), None);
    assert_eq!(daily_log_expiry(date(2026, 4, 7), today, 7), Some(true));
    assert_eq!(daily_log_expiry(today, today, u64::MAX), None);
}

#[test]
fn daily_paths_parse_back() {
    let d = date(1999, 12, 31);
    let path = daily_log_file_path("/var/log/app", "api", d);
    assert_eq!(path, "/var/log/app/api-1999-12-31.log");
    assert_eq!(parse_daily_log_date(&path, "api"), Some(d));
    assert_eq!(parse_daily_log_date(&path, "ap"), None);
    assert_eq!(parse_daily_log_date("api-1999-12-31.txt", "api"), None);
    assert_eq!(parse_daily_log_date("api-bad.log", "api"), None);
}

#[test]
fn cleanup_classifies_and_counts() {
    let config = DailyLogCleanupConfig::new("logs", "server", 7);
    let today = date(2026, 4, 15);
    let mut report = DailyLogCleanupReport::begin(&config, today).unwrap();
    assert_eq!(report.cutoff, date(2026, 4, 8));
    let expired = report.action_for("logs/server-2026-04-05.log", true);
    let retained = report.action_for("logs/server-2026-04-14.log", true);
    let unrelated = report.action_for("logs/other-2026-04-01.log", true);
    let directory = report.action_for("logs/server-2026-04-05.log", false);
    assert_eq!(expired, CleanupAction::Delete);
    assert_eq!(retained, CleanupAction::Keep);
    assert_eq!(unrelated, CleanupAction::Skip);
    assert_eq!(directory, CleanupAction::Skip);
    for action in [expired, retained, unrelated, directory] {
        report.record(action);
    }
    assert_eq!(report.scanned, 2);
    assert_eq!(report.deleted, 1);
    assert_eq!(report.kept(), 1);
    assert!(DailyLogCleanupReport::begin(
        &DailyLogCleanupConfig::new("logs", "server", u64::MAX),
        today
    )
    .is_none());
}

#[test]
fn logging_configs() {
    let file = LogFileConfig::for_product("rz");
    assert_eq!(file.directory, "logs");
    assert_eq!(file.file_name, "rz.log");
    let config = LoggingConfig::file("debug", file.clone()).with_ansi(true).with_target(false);
    assert_eq!(config.target, LogTarget::File(file));
    assert!(config.ansi);
    assert!(!config.include_target);
    let stdout = LoggingConfig::stdout("warn");
    assert_eq!(stdout.target, LogTarget::Stdout);
    assert!(stdout.ansi);
    let daily = DailyLoggingConfig::new("logs", "app").with_env_filter("trace").with_stdout(false);
    assert_eq!(daily.env_filter, "trace");
    assert!(!daily.stdout);
    assert_eq!(default_filter(), "info");
    assert_eq!(log_file_path("/tmp/", "a.log"), "/tmp/a.log");
    assert_eq!(
        LoggingError::EnvFilter("bad".to_string()).to_display_string(),
        "invalid tracing env filter: bad"
    );
}

#[test]
fn invalid_filter_falls_back_to_default() {
    assert_eq!(LoggingConfig::stdout("debug,hyper=warn").effective_env_filter(), "debug,hyper=warn");
    assert_eq!(LoggingConfig::stdout("app=notalevel").effective_env_filter(), "info");
}

#[test]
fn calendar_range_and_year_text() {
    assert!(LogDate::from_ymd(262142, 12, 31).is_some());
    assert!(LogDate::from_ymd(262143, 1, 1).is_none());
    assert!(LogDate::from_ymd(-262143, 1, 1).is_some());
    assert!(LogDate::from_ymd(-262144, 12, 31).is_none());
    assert!(LogDate::from_ymd(2000, 2, 29).is_some());
    assert!(LogDate::from_ymd(1900, 2, 29).is_none());
    assert!(LogDate::from_ymd(-4, 2, 29).is_some());
    assert!(LogDate::from_ymd(2026, 4, 31).is_none());
    assert!(LogDate::from_ymd(2026, 0, 1).is_none());
    assert!(LogDate::from_ymd(2026, 1, 0).is_none());
    assert_eq!(date(42, 7, 9).to_ymd_string(), "0042-07-09");
    assert_eq!(date(10000, 1, 1).to_ymd_string(), "+10000-01-01");
    assert_eq!(date(-5, 3, 4).to_ymd_string(), "-0005-03-04");
    assert_eq!(date(-12345, 12, 25).to_ymd_string(), "-12345-12-25");
}
