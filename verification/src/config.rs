//! Runtime directory layout and primitive environment value parsing.
use vstd::prelude::*;

use crate::numparse::{
    parse_i64, parse_int, parse_u16, parse_u32, parse_u64, parse_usize,
};
use crate::paths::{is_absolute, join_path, normalize_path, normalize_path_text, path_join};
use crate::text::{
    ascii_lower, chars_of, decimal, lower_chars, opt_view, opt_view_str, owned, push_char,
    push_chars, push_decimal,
    starts_with, string_of, trim, trim_chars,
};

verus! {

pub const DEFAULT_FILES_PREFIX: &'static str = "/resources";

pub const DEFAULT_SQLITE_FILE: &'static str = "rustzen.db";

pub const DEFAULT_APP_HOST: &'static str = "0.0.0.0";

pub const DEFAULT_TIMEZONE: &'static str = "UTC";

/// `s` without any trailing `c`.
pub open spec fn trim_end_char(s: Seq<char>, c: char) -> Seq<char>
    decreases s.len(),
{
    if s.len() > 0 && s.last() == c {
        trim_end_char(s.drop_last(), c)
    } else {
        s
    }
}

/// The normalized public files prefix: trimmed, without trailing `/`, with a
/// leading `/`; an empty prefix becomes the default `/resources`.
pub open spec fn normalize_prefix(p: Seq<char>) -> Seq<char> {
    let t = trim(p);
    if t.len() == 0 {
        DEFAULT_FILES_PREFIX@
    } else if t[0] == '/' {
        trim_end_char(t, '/')
    } else {
        seq!['/'] + trim_end_char(t, '/')
    }
}

fn trim_end_char_exec(v: &[char], c: char) -> (r: Vec<char>)
    ensures
        r@ == trim_end_char(v@, c),
{
    let mut n = v.len();
    assert(v@.take(v.len() as int) == v@);
    while n > 0 && v[n - 1] == c
        invariant
            0 <= n <= v.len(),
            trim_end_char(v@, c) == trim_end_char(v@.take(n as int), c),
        decreases n,
    {
        assert(v@.take(n as int).drop_last() == v@.take(n - 1));
        n = n - 1;
    }
    crate::text::sub_chars(v, 0, n)
}

fn normalize_prefix_exec(prefix: &str) -> (r: String)
    ensures
        r@ == normalize_prefix(prefix@),
{
    let v = chars_of(prefix);
    let t = trim_chars(&v);
    if t.len() == 0 {
        return owned(DEFAULT_FILES_PREFIX);
    }
    let body = trim_end_char_exec(&t, '/');
    if t[0] == '/' {
        string_of(&body)
    } else {
        let mut r = String::new();
        push_char(&mut r, '/');
        push_chars(&mut r, &body);
        r
    }
}

/// The runtime root of a product and the public prefix its files are served under.
#[derive(Debug, Clone, PartialEq, Eq)]
pub struct RuntimeLayout {
    runtime_root: String,
    files_prefix: String,
}

impl View for RuntimeLayout {
    type V = (Seq<char>, Seq<char>);

    closed spec fn view(&self) -> (Seq<char>, Seq<char>) {
        (self.runtime_root@, self.files_prefix@)
    }
}

/// `p` resolved against the runtime root: SQLite URLs and `:memory:` are kept
/// as they are, absolute paths are normalized, relative ones are joined onto
/// the absolute runtime root (the root itself when absolute, else the root
/// under the working directory `cwd`, else the root as it is) and normalized.
pub open spec fn resolve_runtime(root: Seq<char>, cwd: Option<Seq<char>>, p: Seq<char>) -> Seq<
    char,
> {
    if p == ":memory:"@ || "sqlite:"@.is_prefix_of(p) {
        p
    } else if is_absolute(p) {
        normalize_path(p)
    } else {
        normalize_path(path_join(absolute_root(root, cwd), p))
    }
}

/// The runtime root made absolute: itself when absolute, else under the
/// working directory `cwd`, else (no working directory) as it is.
pub open spec fn absolute_root(root: Seq<char>, cwd: Option<Seq<char>>) -> Seq<char> {
    if is_absolute(root) {
        root
    } else {
        match cwd {
            Some(c) => path_join(c, root),
            None => root,
        }
    }
}

/// Relative paths resolve under the runtime root: a relative configured
/// path without `..` components resolves to a path whose components begin
/// with those of the normalized absolute runtime root.
pub proof fn law_relative_paths_resolve_under_root(root: Seq<char>, cwd: Option<Seq<char>>, p: Seq<char>)
    requires
        !is_absolute(p),
        p != ":memory:"@,
        !"sqlite:"@.is_prefix_of(p),
        !crate::paths::path_names(p).contains(seq!['.', '.']),
    ensures
        crate::paths::path_starts_with_spec(
            resolve_runtime(root, cwd, p),
            normalize_path(absolute_root(root, cwd)),
        ),
{
    crate::paths::lemma_normalized_join_keeps_base(absolute_root(root, cwd), p);
}

impl RuntimeLayout {
    /// A layout rooted at `runtime_root`, its files prefix normalized.
    pub fn new(runtime_root: &str, files_prefix: &str) -> (l: Self)
        ensures
            l@.0 == runtime_root@,
            l@.1 == normalize_prefix(files_prefix@),
    {
        RuntimeLayout { runtime_root: owned(runtime_root), files_prefix: normalize_prefix_exec(files_prefix) }
    }

    /// The layout of a product: runtime root `.<product_slug>`, default files prefix.
    pub fn for_product(product_slug: &str) -> (l: Self)
        ensures
            l@.0 == seq!['.'] + product_slug@,
            l@.1 == normalize_prefix(DEFAULT_FILES_PREFIX@),
    {
        let mut root = String::new();
        push_char(&mut root, '.');
        crate::text::push_str(&mut root, product_slug);
        Self::new(root.as_str(), DEFAULT_FILES_PREFIX)
    }

    pub fn runtime_root(&self) -> (r: &str)
        ensures
            r@ == self@.0,
    {
        self.runtime_root.as_str()
    }

    pub fn files_prefix(&self) -> (r: &str)
        ensures
            r@ == self@.1,
    {
        self.files_prefix.as_str()
    }

    pub fn runtime_root_dir(&self) -> (r: String)
        ensures
            r@ == self@.0,
    {
        owned(self.runtime_root.as_str())
    }

    pub fn data_dir(&self) -> (r: String)
        ensures
            r@ == path_join(self@.0, "data"@),
    {
        join_path(self.runtime_root.as_str(), "data")
    }

    pub fn db_dir(&self) -> (r: String)
        ensures
            r@ == path_join(path_join(self@.0, "data"@), "db"@),
    {
        let d = self.data_dir();
        join_path(d.as_str(), "db")
    }

    pub fn sqlite_path(&self) -> (r: String)
        ensures
            r@ == path_join(path_join(path_join(self@.0, "data"@), "db"@), DEFAULT_SQLITE_FILE@),
    {
        let d = self.db_dir();
        join_path(d.as_str(), DEFAULT_SQLITE_FILE)
    }

    pub fn log_dir(&self) -> (r: String)
        ensures
            r@ == path_join(self@.0, "logs"@),
    {
        join_path(self.runtime_root.as_str(), "logs")
    }

    pub fn web_dir(&self) -> (r: String)
        ensures
            r@ == path_join(self@.0, "web"@),
    {
        join_path(self.runtime_root.as_str(), "web")
    }

    pub fn web_dist_dir(&self) -> (r: String)
        ensures
            r@ == path_join(path_join(self@.0, "web"@), "dist"@),
    {
        let d = self.web_dir();
        join_path(d.as_str(), "dist")
    }

    pub fn uploads_dir(&self) -> (r: String)
        ensures
            r@ == path_join(path_join(self@.0, "data"@), "uploads"@),
    {
        let d = self.data_dir();
        join_path(d.as_str(), "uploads")
    }

    pub fn avatars_dir(&self) -> (r: String)
        ensures
            r@ == path_join(path_join(self@.0, "data"@), "avatars"@),
    {
        let d = self.data_dir();
        join_path(d.as_str(), "avatars")
    }

    /// The directories a product needs at run time: data, db, logs, uploads,
    /// avatars and web, in that order.
    pub fn runtime_dirs(&self) -> (r: Vec<String>)
        ensures
            r@.len() == 6,
            r@[0]@ == path_join(self@.0, "data"@),
            r@[1]@ == path_join(path_join(self@.0, "data"@), "db"@),
            r@[2]@ == path_join(self@.0, "logs"@),
            r@[3]@ == path_join(path_join(self@.0, "data"@), "uploads"@),
            r@[4]@ == path_join(path_join(self@.0, "data"@), "avatars"@),
            r@[5]@ == path_join(self@.0, "web"@),
    {
        let mut r: Vec<String> = Vec::new();
        r.push(self.data_dir());
        r.push(self.db_dir());
        r.push(self.log_dir());
        r.push(self.uploads_dir());
        r.push(self.avatars_dir());
        r.push(self.web_dir());
        r
    }

    /// The public prefix of avatar files: the files prefix without trailing
    /// `/`, then `/avatars`.
    pub fn avatars_prefix(&self) -> (r: String)
        ensures
            r@ == trim_end_char(self@.1, '/') + "/avatars"@,
    {
        let v = chars_of(self.files_prefix.as_str());
        let body = trim_end_char_exec(&v, '/');
        let mut r = string_of(&body);
        crate::text::push_str(&mut r, "/avatars");
        r
    }

    /// Resolves a configured path against the runtime root. `cwd` is the
    /// process working directory, `None` when it cannot be determined.
    pub fn resolve_runtime_path(&self, value: &str, cwd: Option<&str>) -> (r: String)
        ensures
            r@ == resolve_runtime(self@.0, match cwd {
                Some(c) => Some(c@),
                None => None,
            }, value@),
    {
        let v = chars_of(value);
        let memory = vec![':', 'm', 'e', 'm', 'o', 'r', 'y', ':'];
        let sqlite = vec!['s', 'q', 'l', 'i', 't', 'e', ':'];
        proof {
            reveal_strlit(":memory:");
            reveal_strlit("sqlite:");
            assert(memory@ == ":memory:"@);
            assert(sqlite@ == "sqlite:"@);
        }
        if crate::text::chars_eq(&v, &memory) || starts_with(&v, &sqlite) {
            return owned(value);
        }
        if v.len() > 0 && v[0] == '/' {
            return normalize_path_text(value);
        }
        let root = chars_of(self.runtime_root.as_str());
        let abs_root = if root.len() > 0 && root[0] == '/' {
            owned(self.runtime_root.as_str())
        } else {
            match cwd {
                Some(c) => join_path(c, self.runtime_root.as_str()),
                None => owned(self.runtime_root.as_str()),
            }
        };
        let joined = join_path(abs_root.as_str(), value);
        normalize_path_text(joined.as_str())
    }
}

/// Defaults a product supplies before the environment is consulted.
#[derive(Debug, Clone, PartialEq, Eq)]
pub struct RuntimeDefaults {
    pub product_slug: String,
    pub app_host: String,
    pub app_port: u16,
    pub timezone: String,
    pub files_prefix: String,
    pub sqlite_path: Option<String>,
}

impl RuntimeDefaults {
    pub fn new(product_slug: &str, app_port: u16) -> (d: Self)
        ensures
            d.product_slug@ == product_slug@,
            d.app_host@ == DEFAULT_APP_HOST@,
            d.app_port == app_port,
            d.timezone@ == DEFAULT_TIMEZONE@,
            d.files_prefix@ == DEFAULT_FILES_PREFIX@,
            d.sqlite_path.is_none(),
    {
        RuntimeDefaults {
            product_slug: owned(product_slug),
            app_host: owned(DEFAULT_APP_HOST),
            app_port,
            timezone: owned(DEFAULT_TIMEZONE),
            files_prefix: owned(DEFAULT_FILES_PREFIX),
            sqlite_path: None,
        }
    }

    pub fn with_timezone(self, timezone: &str) -> (d: Self)
        ensures
            d.timezone@ == timezone@,
            d.product_slug == self.product_slug,
            d.app_host == self.app_host,
            d.app_port == self.app_port,
            d.files_prefix == self.files_prefix,
            d.sqlite_path == self.sqlite_path,
    {
        RuntimeDefaults { timezone: owned(timezone), ..self }
    }

    pub fn with_sqlite_path(self, sqlite_path: &str) -> (d: Self)
        ensures
            d.sqlite_path.is_some() && d.sqlite_path.unwrap()@ == sqlite_path@,
            d.product_slug == self.product_slug,
            d.app_host == self.app_host,
            d.app_port == self.app_port,
            d.timezone == self.timezone,
            d.files_prefix == self.files_prefix,
    {
        RuntimeDefaults { sqlite_path: Some(owned(sqlite_path)), ..self }
    }
}

/// The resolved runtime settings of a product.
#[derive(Debug, Clone, PartialEq, Eq)]
pub struct RuntimeConfig {
    pub app_host: String,
    pub app_port: u16,
    pub timezone: String,
    pub sqlite_path: String,
    pub layout: RuntimeLayout,
}

/// The raw values of the `RUSTZEN_*` environment variables, `None` where a
/// variable is unset (or not valid Unicode).
#[derive(Debug, Clone, PartialEq, Eq, Default)]
pub struct RustzenEnv {
    pub runtime_root: Option<String>,
    pub files_prefix: Option<String>,
    pub sqlite_path: Option<String>,
    pub app_host: Option<String>,
    pub app_port: Option<String>,
    pub timezone: Option<String>,
}


/// A trimmed environment value, absent when empty.
pub open spec fn optional_value(raw: Option<Seq<char>>) -> Option<Seq<char>> {
    match raw {
        Some(v) => if trim(v).len() > 0 {
            Some(trim(v))
        } else {
            None
        },
        None => None,
    }
}

/// A parsed environment value, or the default when absent or unparsable.
pub open spec fn int_or(raw: Option<Seq<char>>, lo: int, hi: int, default: int) -> int {
    match raw {
        Some(v) => match parse_int(v, lo, hi) {
            Some(x) => x,
            None => default,
        },
        None => default,
    }
}

impl RuntimeConfig {
    /// The runtime settings given by the defaults alone.
    pub fn from_defaults(defaults: RuntimeDefaults, cwd: Option<&str>) -> (c: Self)
        ensures
            c.app_host == defaults.app_host,
            c.app_port == defaults.app_port,
            c.timezone == defaults.timezone,
            c.layout@.0 == seq!['.'] + defaults.product_slug@,
            c.layout@.1 == normalize_prefix(defaults.files_prefix@),
            c.sqlite_path@ == match defaults.sqlite_path {
                Some(p) => resolve_runtime(c.layout@.0, opt_view_str(cwd), p@),
                None => path_join(
                    path_join(path_join(c.layout@.0, "data"@), "db"@),
                    DEFAULT_SQLITE_FILE@,
                ),
            },
    {
        let mut root = String::new();
        push_char(&mut root, '.');
        crate::text::push_str(&mut root, defaults.product_slug.as_str());
        let layout = RuntimeLayout::new(root.as_str(), defaults.files_prefix.as_str());
        let sqlite_path = match &defaults.sqlite_path {
            Some(value) => layout.resolve_runtime_path(value.as_str(), cwd),
            None => layout.sqlite_path(),
        };
        RuntimeConfig {
            app_host: defaults.app_host,
            app_port: defaults.app_port,
            timezone: defaults.timezone,
            sqlite_path,
            layout,
        }
    }

    /// The runtime settings given by the `RUSTZEN_*` variables, falling back
    /// to the defaults: `RUSTZEN_RUNTIME_ROOT`, `RUSTZEN_FILES_PREFIX`,
    /// `RUSTZEN_SQLITE_PATH` (trimmed, ignored when empty),
    /// `RUSTZEN_APP_HOST`, `RUSTZEN_APP_PORT` (ignored unless a valid port)
    /// and `RUSTZEN_TIMEZONE`.
    pub fn from_rustzen_env(defaults: RuntimeDefaults, env: &RustzenEnv, cwd: Option<&str>) -> (c:
        Self)
        ensures
            c.layout@.0 == match opt_view(env.runtime_root) {
                Some(r) => r,
                None => seq!['.'] + defaults.product_slug@,
            },
            c.layout@.1 == normalize_prefix(
                match opt_view(env.files_prefix) {
                    Some(p) => p,
                    None => defaults.files_prefix@,
                },
            ),
            c.sqlite_path@ == match optional_value(opt_view(env.sqlite_path)) {
                Some(p) => resolve_runtime(c.layout@.0, opt_view_str(cwd), p),
                None => match defaults.sqlite_path {
                    Some(p) => resolve_runtime(c.layout@.0, opt_view_str(cwd), p@),
                    None => path_join(
                        path_join(path_join(c.layout@.0, "data"@), "db"@),
                        DEFAULT_SQLITE_FILE@,
                    ),
                },
            },
            c.app_host@ == match opt_view(env.app_host) {
                Some(h) => h,
                None => defaults.app_host@,
            },
            c.app_port as int == int_or(
                opt_view(env.app_port),
                0,
                u16::MAX as int,
                defaults.app_port as int,
            ),
            c.timezone@ == match opt_view(env.timezone) {
                Some(t) => t,
                None => defaults.timezone@,
            },
    {
        let runtime_root = match &env.runtime_root {
            Some(r) => owned(r.as_str()),
            None => {
                let mut root = String::new();
                push_char(&mut root, '.');
                crate::text::push_str(&mut root, defaults.product_slug.as_str());
                root
            },
        };
        let files_prefix = EnvReader::string(opt_as_str(&env.files_prefix), defaults.files_prefix.as_str());
        let layout = RuntimeLayout::new(runtime_root.as_str(), files_prefix.as_str());
        let sqlite_path = match EnvReader::optional_string(opt_as_str(&env.sqlite_path)) {
            Some(p) => layout.resolve_runtime_path(p.as_str(), cwd),
            None => match &defaults.sqlite_path {
                Some(p) => layout.resolve_runtime_path(p.as_str(), cwd),
                None => layout.sqlite_path(),
            },
        };
        RuntimeConfig {
            app_host: EnvReader::string(opt_as_str(&env.app_host), defaults.app_host.as_str()),
            app_port: EnvReader::u16(opt_as_str(&env.app_port), defaults.app_port),
            timezone: EnvReader::string(opt_as_str(&env.timezone), defaults.timezone.as_str()),
            sqlite_path,
            layout,
        }
    }

    /// The socket address to bind: `host:port`.
    pub fn bind_addr(&self) -> (r: String)
        ensures
            r@ == self.app_host@ + seq![':'] + decimal(self.app_port as nat),
    {
        let mut r = owned(self.app_host.as_str());
        push_char(&mut r, ':');
        push_decimal(&mut r, self.app_port as u64);
        r
    }
}


fn opt_as_str(o: &Option<String>) -> (r: Option<&str>)
    ensures
        opt_view_str(r) == opt_view(*o),
{
    match o {
        Some(s) => Some(s.as_str()),
        None => None,
    }
}

/// `str::parse::<bool>`-like reading of switch values: `1`, `true`, `yes`,
/// `y`, `on` and `0`, `false`, `no`, `n`, `off`, trimmed, in any ASCII case.
pub open spec fn parse_bool_spec(v: Seq<char>) -> Option<bool> {
    let t = ascii_lower(trim(v));
    if t == "1"@ || t == "true"@ || t == "yes"@ || t == "y"@ || t == "on"@ {
        Some(true)
    } else if t == "0"@ || t == "false"@ || t == "no"@ || t == "n"@ || t == "off"@ {
        Some(false)
    } else {
        None
    }
}

fn is_word(t: &[char], w: &str) -> (b: bool)
    ensures
        b == (t@ == w@),
{
    let wv = chars_of(w);
    crate::text::chars_eq(t, &wv)
}

/// Reads a switch value.
pub fn parse_bool(value: &str) -> (r: Option<bool>)
    ensures
        r == parse_bool_spec(value@),
{
    let v = chars_of(value);
    let t0 = trim_chars(&v);
    let t = lower_chars(&t0);
    if is_word(&t, "1") || is_word(&t, "true") || is_word(&t, "yes") || is_word(&t, "y")
        || is_word(&t, "on") {
        Some(true)
    } else if is_word(&t, "0") || is_word(&t, "false") || is_word(&t, "no") || is_word(&t, "n")
        || is_word(&t, "off") {
        Some(false)
    } else {
        None
    }
}

/// Typed readers of environment values. Each takes the raw value of the
/// variable (`None` when unset or not Unicode) and the default.
#[derive(Debug, Clone, Copy, Default)]
pub struct EnvReader;

impl EnvReader {
    /// The value, or the default.
    pub fn string(value: Option<&str>, default: &str) -> (r: String)
        ensures
            r@ == match value {
                Some(v) => v@,
                None => default@,
            },
    {
        match value {
            Some(v) => owned(v),
            None => owned(default),
        }
    }

    /// The trimmed value, absent when unset or empty.
    pub fn optional_string(value: Option<&str>) -> (r: Option<String>)
        ensures
            opt_view(r) == optional_value(opt_view_str(value)),
    {
        match value {
            Some(v) => {
                let t = crate::text::trim_str(v);
                let tv = chars_of(t.as_str());
                if tv.len() > 0 {
                    Some(t)
                } else {
                    None
                }
            },
            None => None,
        }
    }

    /// The value as a path, or the default.
    pub fn path_buf(value: Option<&str>, default: &str) -> (r: String)
        ensures
            r@ == match value {
                Some(v) => v@,
                None => default@,
            },
    {
        Self::string(value, default)
    }

    pub fn u16(value: Option<&str>, default: u16) -> (r: u16)
        ensures
            r as int == int_or(opt_view_str(value), 0, u16::MAX as int, default as int),
    {
        match value {
            Some(v) => match parse_u16(v) {
                Some(x) => x,
                None => default,
            },
            None => default,
        }
    }

    pub fn u32(value: Option<&str>, default: u32) -> (r: u32)
        ensures
            r as int == int_or(opt_view_str(value), 0, u32::MAX as int, default as int),
    {
        match value {
            Some(v) => match parse_u32(v) {
                Some(x) => x,
                None => default,
            },
            None => default,
        }
    }

    pub fn u64(value: Option<&str>, default: u64) -> (r: u64)
        ensures
            r as int == int_or(opt_view_str(value), 0, u64::MAX as int, default as int),
    {
        match value {
            Some(v) => match parse_u64(v) {
                Some(x) => x,
                None => default,
            },
            None => default,
        }
    }

    pub fn i64(value: Option<&str>, default: i64) -> (r: i64)
        ensures
            r as int == int_or(
                opt_view_str(value),
                i64::MIN as int,
                i64::MAX as int,
                default as int,
            ),
    {
        match value {
            Some(v) => match parse_i64(v) {
                Some(x) => x,
                None => default,
            },
            None => default,
        }
    }

    pub fn usize(value: Option<&str>, default: usize) -> (r: usize)
        ensures
            r as int == int_or(opt_view_str(value), 0, usize::MAX as int, default as int),
    {
        match value {
            Some(v) => match parse_usize(v) {
                Some(x) => x,
                None => default,
            },
            None => default,
        }
    }

    /// The value read as a switch, or the default when absent or unrecognized.
    pub fn bool(value: Option<&str>, default: bool) -> (r: bool)
        ensures
            r == match value {
                Some(v) => match parse_bool_spec(v@) {
                    Some(b) => b,
                    None => default,
                },
                None => default,
            },
    {
        match value {
            Some(v) => match parse_bool(v) {
                Some(b) => b,
                None => default,
            },
            None => default,
        }
    }
}

} // verus!
