use rustzen_core::error::CoreError;
use rustzen_core::sqlite::{
    check_database_path, database_path_from_url, database_url_from_path, SqlitePoolConfig,
    SqliteTuningProfile, TimeSpan,
};
use rustzen_core::sqlite_maintenance::{
    MaintenanceStep, SqliteMaintenancePlan, SqliteMaintenanceReport, SqlitePragmaSnapshot,
    WalCheckpointMode, WalCheckpointResult,
};
use rustzen_core::sqlite_query::{
    eq_filter_sql, ilike_filter_sql, ilike_pattern, parse_optional_i16_filter,
};

#[test]
fn checkpoint_mode_maps_to_sql() {
    assert_eq!(WalCheckpointMode::Truncate.as_sql(), "TRUNCATE");
}

#[test]
fn reclaim_plan_is_aggressive() {
    let plan = SqliteMaintenancePlan::reclaim();
    assert_eq!(plan.checkpoint, Some(WalCheckpointMode::Truncate));
    assert!(plan.incremental_vacuum);
    assert!(plan.optimize);
}

#[test]
fn parse_optional_i16_filter_uses_default_when_empty() {
    let value = parse_optional_i16_filter(Some(""), "status", Some(1)).unwrap();

    assert_eq!(value, Some(1));
}

#[test]
fn parse_optional_i16_filter_disables_filter_for_all() {
    let value = parse_optional_i16_filter(Some("all"), "status", Some(1)).unwrap();

    assert_eq!(value, None);
}

#[test]
fn parse_optional_i16_filter_rejects_invalid_number() {
    let error = parse_optional_i16_filter(Some("active"), "status", None).unwrap_err();

    assert_eq!(error.to_display_string(), "invalid input: Invalid status value: active");
}

#[test]
fn i16_filter_parses_trimmed_numbers() {
    assert_eq!(parse_optional_i16_filter(Some(" -7 "), "s", None).unwrap(), Some(-7));
    assert_eq!(parse_optional_i16_filter(None, "s", Some(3)).unwrap(), Some(3));
    let err = parse_optional_i16_filter(Some("40000"), "level", None).unwrap_err();
    assert_eq!(err.to_display_string(), "invalid input: Invalid level value: 40000");
    assert!(matches!(err, CoreError::InvalidInput(_)));
}

#[test]
fn ilike_pattern_lowercases_trimmed_value() {
    assert_eq!(ilike_pattern(Some(" AL ")), Some("%al%".to_string()));
    assert_eq!(ilike_pattern(Some("ÄB")), Some("%äb%".to_string()));
    assert_eq!(ilike_pattern(Some("   ")), None);
    assert_eq!(ilike_pattern(None), None);
}

#[test]
fn maintenance_steps_follow_plan() {
    assert_eq!(
        SqliteMaintenancePlan::reclaim().steps(),
        vec![
            MaintenanceStep::Checkpoint(WalCheckpointMode::Truncate),
            MaintenanceStep::Optimize,
            MaintenanceStep::IncrementalVacuum
        ]
    );
    let plan = SqliteMaintenancePlan::conservative().with_checkpoint(None).with_optimize(false);
    assert!(plan.steps().is_empty());
    let vacuum = SqliteMaintenancePlan::conservative().with_incremental_vacuum(true);
    assert_eq!(vacuum.steps().len(), 3);
    assert_eq!(WalCheckpointMode::Passive.as_sql(), "PASSIVE");
    assert_eq!(WalCheckpointMode::Full.as_sql(), "FULL");
    assert_eq!(WalCheckpointMode::Restart.as_sql(), "RESTART");
}

#[test]
fn snapshot_sizes_saturate() {
    let s = SqlitePragmaSnapshot::from_pragmas("wal".to_string(), 1, 4096, 10, 3);
    assert_eq!(s.freelist_bytes, 12288);
    assert_eq!(s.total_bytes(), 40960);
    let big = SqlitePragmaSnapshot::from_pragmas("wal".to_string(), 1, i64::MAX, 2, -2);
    assert_eq!(big.total_bytes(), i64::MAX);
    assert_eq!(big.freelist_bytes, i64::MIN);
    let report = SqliteMaintenanceReport::for_plan(
        &SqliteMaintenancePlan::conservative(),
        s.clone(),
        s.clone(),
        Some(WalCheckpointResult { busy: 0, log_frames: 4, checkpointed_frames: 4 }),
    );
    assert!(report.optimized);
    assert!(!report.vacuumed);
}

#[test]
fn pool_config_profiles_and_builders() {
    let d = SqlitePoolConfig::default();
    assert_eq!(d.max_connections, 4);
    assert_eq!(d.min_connections, 1);
    assert_eq!(d.idle_timeout, Some(TimeSpan { secs: 600, nanos: 0 }));
    assert_eq!(d.acquire_timeout, TimeSpan::from_secs(10));
    assert_eq!(d.busy_timeout, TimeSpan { secs: 5, nanos: 0 });
    assert_eq!(d.tuning_profile, SqliteTuningProfile::Service);
    assert_eq!(SqlitePoolConfig::agent().max_connections, 5);
    let c = SqlitePoolConfig::minimal().with_pool_size(6, 2).with_busy_timeout_secs(9);
    assert_eq!(c.min_connections, 6);
    assert_eq!(c.max_connections, 6);
    assert_eq!(c.busy_timeout, TimeSpan::from_secs(9));
    let custom = SqlitePoolConfig {
        acquire_timeout: TimeSpan { secs: 0, nanos: 250_000_000 },
        ..SqlitePoolConfig::default()
    };
    assert_eq!(custom.acquire_timeout.nanos, 250_000_000);
    assert_eq!(c.clone().with_idle_timeout_secs(None).idle_timeout, None);
    assert_eq!(c.tuning_profile, SqliteTuningProfile::Minimal);
    assert_eq!(SqliteTuningProfile::default(), SqliteTuningProfile::Service);
    let t = SqliteTuningProfile::ReadOptimized.tuning();
    assert!(t.wal && t.synchronous_normal);
    assert_eq!(t.pragmas[0], ("mmap_size", "268435456"));
    assert!(!SqliteTuningProfile::Minimal.tuning().wal);
    assert!(SqliteTuningProfile::Service.tuning().pragmas.is_empty());
}

#[test]
fn database_urls_and_paths() {
    assert_eq!(database_url_from_path(":memory:"), ":memory:");
    assert_eq!(database_url_from_path("sqlite:x.db"), "sqlite:x.db");
    assert_eq!(database_url_from_path("data/app.db"), "sqlite:///data/app.db");
    assert_eq!(database_path_from_url(" sqlite::memory: "), None);
    assert_eq!(database_path_from_url("sqlite://data/app.db"), Some("data/app.db".to_string()));
    assert_eq!(database_path_from_url("sqlite:memory:"), None);
    assert_eq!(database_path_from_url("sqlite:a.db"), Some("a.db".to_string()));
    assert_eq!(database_path_from_url("plain.db"), Some("plain.db".to_string()));
    assert!(check_database_path("a.db", false).is_ok());
    assert_eq!(
        check_database_path("", false).unwrap_err().to_display_string(),
        "invalid input: SQLite database path cannot be empty"
    );
    assert_eq!(
        check_database_path("data", true).unwrap_err().to_display_string(),
        "invalid input: SQLite database path must be a file path, not a directory"
    );
}

#[test]
fn filter_sql_text() {
    assert_eq!(ilike_filter_sql("name"), " AND LOWER(name) LIKE ");
    assert_eq!(eq_filter_sql("status"), " AND status = ");
}
