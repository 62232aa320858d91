use rustzen_core::cli::{
    discover_config_files, parse_config_text, resolve_toggle, CliOutput, ConfigFileError,
    OutputFormat, ToggleFlag, Verbosity, EXIT_FAILURE,
};

#[test]
fn verbosity_rules_are_stable() {
    assert!(!Verbosity::Quiet.allows_normal());
    assert!(Verbosity::Normal.allows_normal());
    assert!(Verbosity::Verbose.allows_verbose());
}

#[test]
fn default_output_is_text() {
    assert_eq!(OutputFormat::default(), OutputFormat::Text);
}

#[test]
fn output_flags_resolve_json_and_verbosity() {
    let output = CliOutput::from_flags(true, false, false, true, false);
    assert_eq!(output.format, OutputFormat::Json);
    assert_eq!(output.verbosity, Verbosity::Verbose);
}

#[test]
fn disable_toggle_wins() {
    let toggle = ToggleFlag {
        enable: true,
        disable: true,
    };
    assert!(!toggle.resolve(true));
    assert!(resolve_toggle(false, false, true));
}

#[test]
fn no_quiet_overrides_quiet_and_verbose() {
    let v = Verbosity::resolve(true, true, true, false, Verbosity::Quiet);
    assert_eq!(v, Verbosity::Normal);
    assert_eq!(
        Verbosity::resolve(true, false, true, false, Verbosity::Normal),
        Verbosity::Quiet
    );
    assert_eq!(
        Verbosity::resolve(false, false, true, true, Verbosity::Verbose),
        Verbosity::Normal
    );
    assert_eq!(
        Verbosity::resolve(false, false, false, false, Verbosity::Quiet),
        Verbosity::Quiet
    );
}

#[test]
fn verbose_levels_nest() {
    for v in [Verbosity::Quiet, Verbosity::Normal, Verbosity::Verbose] {
        if v.allows_verbose() {
            assert!(v.allows_normal());
        }
    }
    assert!(!Verbosity::Quiet.allows_verbose());
    assert!(!Verbosity::Normal.allows_verbose());
}

#[test]
fn output_defaults_and_json_flag() {
    let output = CliOutput::default();
    assert_eq!(output.format, OutputFormat::Text);
    assert_eq!(output.verbosity, Verbosity::Normal);
    assert!(OutputFormat::from_json_flag(true).is_json());
    assert!(!OutputFormat::from_json_flag(false).is_json());
    assert_eq!(Verbosity::default(), Verbosity::Normal);
    let quiet = CliOutput::from_flags(false, true, false, false, false);
    assert_eq!(quiet.format, OutputFormat::Text);
    assert_eq!(quiet.verbosity, Verbosity::Quiet);
    assert_eq!(EXIT_FAILURE, 1);
}

#[test]
fn toggle_falls_back_to_default() {
    assert!(resolve_toggle(true, false, false));
    assert!(!resolve_toggle(false, false, false));
    assert!(!resolve_toggle(true, true, true));
    assert!(!ToggleFlag { enable: false, disable: true }.resolve(true));
}

#[test]
fn discover_lists_default_candidates() {
    let files = discover_config_files(None, false, "/work").unwrap();
    assert_eq!(
        files,
        vec![
            "/work/.rzrc".to_string(),
            "/work/.rzrc.json".to_string(),
            "/work/package.json".to_string()
        ]
    );
}

#[test]
fn discover_requires_existing_explicit_file() {
    let files = discover_config_files(Some("conf/app.json"), true, "/work").unwrap();
    assert_eq!(files, vec!["conf/app.json".to_string()]);
    let err = discover_config_files(Some("missing.json"), false, "/work").unwrap_err();
    match &err {
        ConfigFileError::NotFound(p) => assert_eq!(p, "missing.json"),
        other => panic!("unexpected error {other:?}"),
    }
    assert_eq!(
        err.to_display_string(),
        "config file does not exist: \"missing.json\""
    );
}

fn config_error<T>(r: Result<T, ConfigFileError>) -> ConfigFileError {
    match r {
        Ok(_) => panic!("expected an error"),
        Err(e) => e,
    }
}

#[test]
fn config_text_rules() {
    let blank = parse_config_text("/w/.rzrc", "  \n", "rz").unwrap().unwrap().into_value();
    assert!(blank.is_object());
    assert_eq!(blank.as_object().unwrap().len(), 0);
    let blank_package = parse_config_text("/w/package.json", "", "rz").unwrap().unwrap();
    assert!(blank_package.value().is_object());

    let whole = parse_config_text("/w/.rzrc", "{\"a\": 1}", "rz").unwrap().unwrap().into_value();
    assert_eq!(whole["a"], 1);

    let err = config_error(parse_config_text("/w/.rzrc", "[1, 2]", "rz"));
    assert!(matches!(err, ConfigFileError::InvalidRoot));
    assert_eq!(err.to_display_string(), "config root must be a JSON object");

    let field = parse_config_text("/w/package.json", "{\"rz\": {\"b\": true}}", "rz")
        .unwrap()
        .unwrap()
        .into_value();
    assert_eq!(field["b"], true);
    let scalar = parse_config_text("/w/package.json", "{\"rz\": 3}", "rz").unwrap().unwrap();
    assert_eq!(*scalar.value(), 3);
    let absent = parse_config_text("/w/package.json", "{\"name\": \"x\"}", "rz").unwrap();
    assert!(absent.is_none());
    let not_object = parse_config_text("/w/package.json", "[1]", "rz").unwrap();
    assert!(not_object.is_none());

    let bad = config_error(parse_config_text("/w/.rzrc", "{oops", "rz"));
    assert!(matches!(bad, ConfigFileError::Json(_)));
    assert!(bad.to_display_string().starts_with("json error: "));
    let bad_package = config_error(parse_config_text("/w/package.json", "{oops", "rz"));
    assert!(matches!(bad_package, ConfigFileError::Json(_)));
}
