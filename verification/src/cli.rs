//! Command-line output settings, toggle flags and JSON config files.
use vstd::prelude::*;

use crate::error::{io_error_text, json_error_text};
use crate::paths::{join_path, path_file_name, path_file_name_spec, path_join};
use crate::text::{opt_view, owned, push_str, str_eq, trim, trim_str};

verus! {

/// The exit code of a failed command.
pub const EXIT_FAILURE: i32 = 1;

/// How a command prints its result.
#[derive(Debug, Clone, Copy, PartialEq, Eq, Structural)]
pub enum OutputFormat {
    Text,
    Json,
}

impl Default for OutputFormat {
    fn default() -> (r: Self)
        ensures
            r == OutputFormat::Text,
    {
        OutputFormat::Text
    }
}

impl OutputFormat {
    pub fn from_json_flag(json: bool) -> (r: Self)
        ensures
            r == (if json { OutputFormat::Json } else { OutputFormat::Text }),
    {
        if json {
            OutputFormat::Json
        } else {
            OutputFormat::Text
        }
    }

    pub fn is_json(self) -> (r: bool)
        ensures
            r == (self == OutputFormat::Json),
    {
        match self {
            OutputFormat::Json => true,
            OutputFormat::Text => false,
        }
    }
}

/// How much a command prints.
#[derive(Debug, Clone, Copy, PartialEq, Eq, Structural)]
pub enum Verbosity {
    Quiet,
    Normal,
    Verbose,
}

impl Default for Verbosity {
    fn default() -> (r: Self)
        ensures
            r == Verbosity::Normal,
    {
        Verbosity::Normal
    }
}

/// The verbosity the flags select: `--no-quiet` wins and gives normal
/// output, then `--quiet`, then `--no-verbose` (normal), then `--verbose`;
/// without any of them, the default.
pub open spec fn resolved_verbosity(
    quiet: bool,
    no_quiet: bool,
    verbose: bool,
    no_verbose: bool,
    default: Verbosity,
) -> Verbosity {
    if no_quiet {
        Verbosity::Normal
    } else if quiet {
        Verbosity::Quiet
    } else if no_verbose {
        Verbosity::Normal
    } else if verbose {
        Verbosity::Verbose
    } else {
        default
    }
}

/// Whether normal output is printed at a verbosity.
pub open spec fn shows_normal(v: Verbosity) -> bool {
    v == Verbosity::Normal || v == Verbosity::Verbose
}

/// Whether verbose output is printed at a verbosity.
pub open spec fn shows_verbose(v: Verbosity) -> bool {
    v == Verbosity::Verbose
}

impl Verbosity {
    pub fn resolve(quiet: bool, no_quiet: bool, verbose: bool, no_verbose: bool, default: Self) -> (r: Self)
        ensures
            r == resolved_verbosity(quiet, no_quiet, verbose, no_verbose, default),
    {
        if no_quiet {
            return Verbosity::Normal;
        }
        if quiet {
            return Verbosity::Quiet;
        }
        if no_verbose {
            return Verbosity::Normal;
        }
        if verbose {
            return Verbosity::Verbose;
        }
        default
    }

    pub fn allows_normal(self) -> (r: bool)
        ensures
            r == shows_normal(self),
    {
        match self {
            Verbosity::Quiet => false,
            Verbosity::Normal => true,
            Verbosity::Verbose => true,
        }
    }

    pub fn allows_verbose(self) -> (r: bool)
        ensures
            r == shows_verbose(self),
    {
        match self {
            Verbosity::Verbose => true,
            _ => false,
        }
    }
}

/// Verbosity levels are ordered: whatever shows verbose output also shows
/// normal output, and quiet shows neither.
pub proof fn law_verbosity_levels_nest(v: Verbosity)
    ensures
        shows_verbose(v) ==> shows_normal(v),
        v == Verbosity::Quiet ==> !shows_normal(v) && !shows_verbose(v),
{
}

/// A negative flag overrides its positive one: `--no-quiet` gives normal
/// output whatever else is set, and `--no-verbose` without `--quiet` does too.
pub proof fn law_negative_flags_win(quiet: bool, verbose: bool, no_verbose: bool, default: Verbosity)
    ensures
        resolved_verbosity(quiet, true, verbose, no_verbose, default) == Verbosity::Normal,
        resolved_verbosity(false, false, verbose, true, default) == Verbosity::Normal,
{
}

/// The output settings of a command.
#[derive(Debug, Clone, Copy, PartialEq, Eq, Structural)]
pub struct CliOutput {
    pub format: OutputFormat,
    pub verbosity: Verbosity,
}

impl Default for CliOutput {
    fn default() -> (r: Self)
        ensures
            r.format == OutputFormat::Text,
            r.verbosity == Verbosity::Normal,
    {
        CliOutput { format: OutputFormat::Text, verbosity: Verbosity::Normal }
    }
}

impl CliOutput {
    pub fn new(format: OutputFormat, verbosity: Verbosity) -> (r: Self)
        ensures
            r.format == format,
            r.verbosity == verbosity,
    {
        CliOutput { format, verbosity }
    }

    /// The output settings of the common flags, normal verbosity by default.
    pub fn from_flags(json: bool, quiet: bool, no_quiet: bool, verbose: bool, no_verbose: bool) -> (r: Self)
        ensures
            r.format == (if json { OutputFormat::Json } else { OutputFormat::Text }),
            r.verbosity == resolved_verbosity(quiet, no_quiet, verbose, no_verbose, Verbosity::Normal),
    {
        CliOutput {
            format: OutputFormat::from_json_flag(json),
            verbosity: Verbosity::resolve(quiet, no_quiet, verbose, no_verbose, Verbosity::Normal),
        }
    }
}

/// A pair of `--x` / `--no-x` flags.
#[derive(Debug, Clone, Copy, PartialEq, Eq, Structural)]
pub struct ToggleFlag {
    pub enable: bool,
    pub disable: bool,
}

/// The setting of a toggle: off when disabled, else on when enabled, else
/// the default.
pub open spec fn toggle_value(enable: bool, disable: bool, default: bool) -> bool {
    if disable {
        false
    } else if enable {
        true
    } else {
        default
    }
}

impl ToggleFlag {
    /// The disabling flag wins over the enabling one.
    pub fn resolve(self, default: bool) -> (r: bool)
        ensures
            r == toggle_value(self.enable, self.disable, default),
            self.disable ==> !r,
    {
        if self.disable {
            false
        } else if self.enable {
            true
        } else {
            default
        }
    }
}

pub fn resolve_toggle(enable: bool, disable: bool, default: bool) -> (r: bool)
    ensures
        r == toggle_value(enable, disable, default),
        disable ==> !r,
{
    ToggleFlag { enable, disable }.resolve(default)
}

// ---------------------------------------------------------------------------
// JSON config files
// ---------------------------------------------------------------------------

/// A config value and the file it came from.
#[derive(Debug)]
pub struct LoadedConfig {
    pub path: String,
    pub value: serde_json::Value,
}

/// Errors of config file discovery and loading.
#[derive(Debug)]
pub enum ConfigFileError {
    NotFound(String),
    InvalidRoot,
    Io(std::io::Error),
    Json(serde_json::Error),
}

/// What `format!("{:?}", Path::new(p))` writes: the path quoted, with
/// special characters escaped.
pub uninterp spec fn path_debug_text(p: Seq<char>) -> Seq<char>;

/// `Debug` of a path, a function of its text alone.
#[verifier::external_body]
fn path_debug(p: &str) -> (r: String)
    ensures
        r@ == path_debug_text(p@),
{
    format!("{:?}", std::path::Path::new(p))
}

impl ConfigFileError {
    /// The human-readable form of the error.
    pub fn to_display_string(&self) -> (s: String)
        ensures
            self matches ConfigFileError::NotFound(p) ==> s@ == "config file does not exist: "@
                + path_debug_text(p@),
            self matches ConfigFileError::InvalidRoot ==> s@ == "config root must be a JSON object"@,
            self matches ConfigFileError::Io(_) ==> "io error: "@.is_prefix_of(s@),
            self matches ConfigFileError::Json(_) ==> "json error: "@.is_prefix_of(s@),
    {
        match self {
            ConfigFileError::NotFound(p) => {
                let mut s = owned("config file does not exist: ");
                let d = path_debug(p.as_str());
                push_str(&mut s, d.as_str());
                s
            },
            ConfigFileError::InvalidRoot => owned("config root must be a JSON object"),
            ConfigFileError::Io(e) => {
                let mut s = owned("io error: ");
                let d = io_error_text(e);
                push_str(&mut s, d.as_str());
                assert("io error: "@.is_prefix_of(s@));
                s
            },
            ConfigFileError::Json(e) => {
                let mut s = owned("json error: ");
                let d = json_error_text(e);
                push_str(&mut s, d.as_str());
                assert("json error: "@.is_prefix_of(s@));
                s
            },
        }
    }
}

/// The files searched for a config, in order: the explicit file alone, or
/// `.rzrc`, `.rzrc.json` and `package.json` in the working directory.
pub open spec fn config_candidates(explicit: Option<Seq<char>>, cwd: Seq<char>) -> Seq<Seq<char>> {
    match explicit {
        Some(p) => seq![p],
        None => seq![
            path_join(cwd, ".rzrc"@),
            path_join(cwd, ".rzrc.json"@),
            path_join(cwd, "package.json"@),
        ],
    }
}

/// The config files to try. An explicit file must exist (`explicit_exists`
/// tells whether it does), else the result is `NotFound` with its path.
pub fn discover_config_files(explicit: Option<&str>, explicit_exists: bool, cwd: &str) -> (r: Result<
    Vec<String>,
    ConfigFileError,
>)
    ensures
        explicit matches Some(p) && !explicit_exists <==> r is Err,
        r matches Err(e) ==> (e matches ConfigFileError::NotFound(q) && explicit matches Some(p)
            && q@ == p@),
        r matches Ok(v) ==> v@.map_values(|s: String| s@) == config_candidates(
            crate::text::opt_view_str(explicit),
            cwd@,
        ),
{
    match explicit {
        Some(p) => {
            if !explicit_exists {
                return Err(ConfigFileError::NotFound(owned(p)));
            }
            let mut v: Vec<String> = Vec::new();
            v.push(owned(p));
            assert(v@.map_values(|s: String| s@) =~= seq![p@]);
            Ok(v)
        },
        None => {
            let mut v: Vec<String> = Vec::new();
            v.push(join_path(cwd, ".rzrc"));
            v.push(join_path(cwd, ".rzrc.json"));
            v.push(join_path(cwd, "package.json"));
            assert(v@.map_values(|s: String| s@) =~= config_candidates(None, cwd@));
            Ok(v)
        },
    }
}

/// Where a JSON value read from a config file comes from: the parse of a
/// text, the value of a field of the parse of a text, or a fresh empty object.
pub enum JsonOrigin {
    Parsed(Seq<char>),
    Field(Seq<char>, Seq<char>),
    EmptyObject,
}

/// A JSON value of a config file, together with where it comes from.
pub struct ConfigValue {
    value: serde_json::Value,
    origin: Ghost<JsonOrigin>,
}

impl View for ConfigValue {
    type V = JsonOrigin;

    closed spec fn view(&self) -> JsonOrigin {
        self.origin@
    }
}

impl ConfigValue {
    /// The JSON value itself.
    pub fn value(&self) -> &serde_json::Value {
        &self.value
    }

    /// The JSON value itself, taken out.
    pub fn into_value(self) -> serde_json::Value {
        self.value
    }
}

/// Whether `serde_json::from_str::<Value>(text)` succeeds.
pub uninterp spec fn json_valid(text: Seq<char>) -> bool;

/// Whether `Value::is_object` holds of the value parsed from `text`.
pub uninterp spec fn json_object_root(text: Seq<char>) -> bool;

/// Whether `Value::get(field)` finds something in the value parsed from
/// `text`: the value is an object with the key `field`.
pub uninterp spec fn json_field_present(text: Seq<char>, field: Seq<char>) -> bool;

/// `serde_json::from_str::<Value>`: whether it succeeds depends on the text
/// alone; the value parsed is recorded as the parse of the text.
#[verifier::external_body]
fn json_from_str(content: &str) -> (r: Result<ConfigValue, serde_json::Error>)
    ensures
        r is Ok == json_valid(content@),
        r matches Ok(v) ==> v@ == JsonOrigin::Parsed(content@),
{
    match serde_json::from_str(content) {
        Ok(value) => Ok(ConfigValue { value, origin: Ghost(JsonOrigin::Parsed(content@)) }),
        Err(e) => Err(e),
    }
}

/// `Value::Object(Default::default())`: an empty JSON object.
#[verifier::external_body]
fn json_empty_object() -> (r: ConfigValue)
    ensures
        r@ == JsonOrigin::EmptyObject,
{
    ConfigValue {
        value: serde_json::Value::Object(Default::default()),
        origin: Ghost(JsonOrigin::EmptyObject),
    }
}

/// `Value::is_object` of a parsed value, a function of the parsed text.
#[verifier::external_body]
fn json_is_object(v: &ConfigValue) -> (r: bool)
    requires
        v@ is Parsed,
    ensures
        r == json_object_root(v@->Parsed_0),
{
    v.value.is_object()
}

/// `value.get(field).cloned()` of a parsed value: whether a value comes
/// back depends on the parsed text and the field alone; it is recorded as
/// that field of the parse of the text.
#[verifier::external_body]
fn json_field(v: &ConfigValue, field: &str) -> (r: Option<ConfigValue>)
    requires
        v@ is Parsed,
    ensures
        r is Some == json_field_present(v@->Parsed_0, field@),
        r matches Some(f) ==> f@ == JsonOrigin::Field(v@->Parsed_0, field@),
{
    match v.value.get(field) {
        Some(x) => Some(ConfigValue { value: x.clone(), origin: Ghost(JsonOrigin::Field(v@->Parsed_0, field@)) }),
        None => None,
    }
}

/// Whether a path names a `package.json` file.
pub open spec fn is_package_json(path: Seq<char>) -> bool {
    path_file_name_spec(path) == Some("package.json"@)
}

/// What reading the text of a config file gives: a blank file is an empty
/// object; otherwise the text must be JSON; in a `package.json` the config
/// is the value of `package_field`, absent when there is none; elsewhere
/// the whole value, which must be an object.
pub open spec fn config_text_result(
    r: Result<Option<ConfigValue>, ConfigFileError>,
    path: Seq<char>,
    content: Seq<char>,
    field: Seq<char>,
) -> bool {
    if trim(content).len() == 0 {
        r matches Ok(Some(v)) && v@ == JsonOrigin::EmptyObject
    } else if !json_valid(content) {
        r matches Err(ConfigFileError::Json(_))
    } else if is_package_json(path) {
        if json_field_present(content, field) {
            r matches Ok(Some(v)) && v@ == JsonOrigin::Field(content, field)
        } else {
            r matches Ok(None)
        }
    } else if json_object_root(content) {
        r matches Ok(Some(v)) && v@ == JsonOrigin::Parsed(content)
    } else {
        r matches Err(ConfigFileError::InvalidRoot)
    }
}

/// Reads the config value out of the text of a config file at `path`. A
/// blank file is an empty object. The text must be JSON. In a
/// `package.json` the config is the value of `package_field`, if any;
/// elsewhere the whole value, which must be an object.
pub fn parse_config_text(path: &str, content: &str, package_field: &str) -> (r: Result<
    Option<ConfigValue>,
    ConfigFileError,
>)
    ensures
        config_text_result(r, path@, content@, package_field@),
{
    let t = trim_str(content);
    if t.as_str().is_empty() {
        return Ok(Some(json_empty_object()));
    }
    let value = match json_from_str(content) {
        Ok(v) => v,
        Err(e) => return Err(ConfigFileError::Json(e)),
    };
    let name = path_file_name(path);
    let package = match &name {
        Some(n) => str_eq(n.as_str(), "package.json"),
        None => false,
    };
    assert(package == is_package_json(path@)) by {
        assert(opt_view(name) == path_file_name_spec(path@));
    }
    if package {
        return Ok(json_field(&value, package_field));
    }
    if json_is_object(&value) {
        Ok(Some(value))
    } else {
        Err(ConfigFileError::InvalidRoot)
    }
}

} // verus!
