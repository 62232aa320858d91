use rustzen_core::config::{
    parse_bool, EnvReader, RuntimeConfig, RuntimeDefaults, RuntimeLayout, RustzenEnv,
    DEFAULT_FILES_PREFIX,
};
use rustzen_core::env_file::{parse_env_file, render_env_file, EnvFileEntry};
use rustzen_core::paths::path_starts_with;

#[test]
fn product_layout_uses_standard_dirs() {
    let layout = RuntimeLayout::for_product("rustzen-admin");
    assert_eq!(layout.runtime_root_dir(), ".rustzen-admin");
    assert_eq!(layout.data_dir(), ".rustzen-admin/data");
    assert_eq!(layout.db_dir(), ".rustzen-admin/data/db");
    assert_eq!(layout.log_dir(), ".rustzen-admin/logs");
    assert_eq!(layout.web_dist_dir(), ".rustzen-admin/web/dist");
    assert_eq!(layout.files_prefix(), DEFAULT_FILES_PREFIX);
}

#[test]
fn runtime_config_uses_defaults_without_env() {
    let config = RuntimeConfig::from_defaults(RuntimeDefaults::new("rustzen-admin", 9880), None);
    assert_eq!(config.app_host, "0.0.0.0");
    assert_eq!(config.app_port, 9880);
    assert_eq!(config.bind_addr(), "0.0.0.0:9880");
    assert_eq!(config.layout.runtime_root_dir(), ".rustzen-admin");
}

#[test]
fn env_file_parser_handles_export_and_quotes() {
    let entries = parse_env_file(
        r#"
            # comment
            export RUSTZEN_APP_PORT=9880
            RUSTZEN_RUNTIME_ROOT="."
            "#,
    )
    .expect("parse env file");
    assert_eq!(entries[0], EnvFileEntry::new("RUSTZEN_APP_PORT", "9880"));
    assert_eq!(entries[1], EnvFileEntry::new("RUSTZEN_RUNTIME_ROOT", "."));
}

#[test]
fn env_file_renderer_is_stable() {
    let rendered = render_env_file(vec![
        EnvFileEntry::new("RUSTZEN_APP_PORT", "9880"),
        EnvFileEntry::new("RUSTZEN_RUNTIME_ROOT", "."),
    ]);
    assert_eq!(rendered, "RUSTZEN_APP_PORT=9880\nRUSTZEN_RUNTIME_ROOT=.\n");
}

#[test]
fn env_file_round_trips() {
    let entries = vec![
        EnvFileEntry::new("A", "1"),
        EnvFileEntry::new("B_2", "x y"),
        EnvFileEntry::new("C", ""),
    ];
    let text = render_env_file(entries.clone());
    assert_eq!(parse_env_file(&text).unwrap(), entries);
}

#[test]
fn env_file_rejects_bad_lines() {
    let err = parse_env_file("A=1\nnot a pair\n").unwrap_err();
    assert_eq!(err.line, 2);
    let err = parse_env_file("1BAD=x\n").unwrap_err();
    assert_eq!(err.line, 1);
}

#[test]
fn env_readers_fall_back_to_defaults() {
    assert_eq!(EnvReader::u16(Some("8080"), 1), 8080);
    assert_eq!(EnvReader::u16(Some("70000"), 1), 1);
    assert_eq!(EnvReader::u16(None, 3), 3);
    assert_eq!(EnvReader::string(None, "dflt"), "dflt");
    assert_eq!(EnvReader::i64(Some("-12"), 0), -12);
    assert_eq!(parse_bool("YES"), Some(true));
    assert_eq!(parse_bool("off"), Some(false));
    assert_eq!(parse_bool("maybe"), None);
}

#[test]
fn runtime_paths_resolve_against_root() {
    let layout = RuntimeLayout::new("/srv/app", "/files/");
    assert_eq!(layout.resolve_runtime_path("data/x.db", None), "/srv/app/data/x.db");
    assert_eq!(layout.resolve_runtime_path("/abs/../y.db", None), "/y.db");
    assert_eq!(layout.resolve_runtime_path(":memory:", None), ":memory:");
    let relative = RuntimeLayout::new(".app", "/files");
    assert_eq!(
        relative.resolve_runtime_path("db/./a.db", Some("/home/u")),
        "/home/u/.app/db/a.db"
    );
}

#[test]
fn rustzen_env_overrides_defaults() {
    let env = RustzenEnv {
        runtime_root: Some("/var/lib/rz".to_string()),
        files_prefix: None,
        sqlite_path: Some("  ".to_string()),
        app_host: Some("127.0.0.1".to_string()),
        app_port: Some("not-a-port".to_string()),
        timezone: None,
    };
    let config =
        RuntimeConfig::from_rustzen_env(RuntimeDefaults::new("rustzen-admin", 9880), &env, None);
    assert_eq!(config.app_host, "127.0.0.1");
    assert_eq!(config.app_port, 9880);
    assert_eq!(config.bind_addr(), "127.0.0.1:9880");
    assert_eq!(config.sqlite_path, "/var/lib/rz/data/db/rustzen.db");
}

#[test]
fn relative_paths_stay_under_runtime_root() {
    let layout = RuntimeLayout::new(".app", "/files");
    for value in ["db/x.db", "./logs//a.log", "a/./b/c", "uploads/"] {
        let resolved = layout.resolve_runtime_path(value, Some("/home/u"));
        assert!(path_starts_with(&resolved, "/home/u/.app"), "{resolved}");
    }
    let escaped = layout.resolve_runtime_path("../../etc/passwd", Some("/home/u"));
    assert_eq!(escaped, "/home/etc/passwd");
    assert!(!path_starts_with(&escaped, "/home/u/.app"));
}
