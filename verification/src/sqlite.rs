//! SQLite pool configuration, tuning profiles and database URLs.
use vstd::prelude::*;

use crate::error::CoreError;
use crate::text::{chars_eq, chars_of, owned, push_str, starts_with, string_of, sub_chars, trim, trim_chars};

verus! {

/// The database name of an in-memory SQLite database.
pub const SQLITE_MEMORY: &'static str = ":memory:";

/// How a pool tunes its connections.
#[derive(Debug, Clone, Copy, PartialEq, Eq, Structural)]
pub enum SqliteTuningProfile {
    Minimal,
    Service,
    ReadOptimized,
    Agent,
}

impl Default for SqliteTuningProfile {
    fn default() -> (r: Self)
        ensures
            r == SqliteTuningProfile::Service,
    {
        SqliteTuningProfile::Service
    }
}

/// A span of time as `std::time::Duration` holds it: whole seconds and the
/// nanoseconds of a last, partial second (below one second).
#[derive(Debug, Clone, Copy, PartialEq, Eq, Structural)]
pub struct TimeSpan {
    pub secs: u64,
    pub nanos: u32,
}

/// A span of whole seconds.
pub open spec fn secs_span(secs: u64) -> TimeSpan {
    TimeSpan { secs, nanos: 0 }
}

impl TimeSpan {
    /// `Duration::from_secs`.
    pub fn from_secs(secs: u64) -> (t: Self)
        ensures
            t == secs_span(secs),
    {
        TimeSpan { secs, nanos: 0 }
    }
}

/// Pool sizes, timeouts and connection tuning.
#[derive(Debug, Clone)]
pub struct SqlitePoolConfig {
    pub max_connections: u32,
    pub min_connections: u32,
    pub acquire_timeout: TimeSpan,
    pub idle_timeout: Option<TimeSpan>,
    pub busy_timeout: TimeSpan,
    pub tuning_profile: SqliteTuningProfile,
    pub foreign_keys: bool,
}

/// The default configuration with the given profile and connection limit.
pub open spec fn default_pool_with(profile: SqliteTuningProfile, max_connections: u32) -> SqlitePoolConfig {
    SqlitePoolConfig {
        max_connections,
        min_connections: 1,
        acquire_timeout: secs_span(10),
        idle_timeout: Some(secs_span(600)),
        busy_timeout: secs_span(5),
        tuning_profile: profile,
        foreign_keys: true,
    }
}

impl Default for SqlitePoolConfig {
    /// 1 to 4 connections, a 10 s acquire timeout, 600 s idle timeout, 5 s
    /// busy timeout, the service profile, foreign keys on.
    fn default() -> (r: Self)
        ensures
            r == default_pool_with(SqliteTuningProfile::Service, 4),
    {
        SqlitePoolConfig {
            max_connections: 4,
            min_connections: 1,
            acquire_timeout: TimeSpan::from_secs(10),
            idle_timeout: Some(TimeSpan::from_secs(600)),
            busy_timeout: TimeSpan::from_secs(5),
            tuning_profile: SqliteTuningProfile::Service,
            foreign_keys: true,
        }
    }
}

impl SqlitePoolConfig {
    pub fn minimal() -> (r: Self)
        ensures
            r == default_pool_with(SqliteTuningProfile::Minimal, 4),
    {
        SqlitePoolConfig { tuning_profile: SqliteTuningProfile::Minimal, ..Self::default() }
    }

    pub fn service() -> (r: Self)
        ensures
            r == default_pool_with(SqliteTuningProfile::Service, 4),
    {
        SqlitePoolConfig { tuning_profile: SqliteTuningProfile::Service, ..Self::default() }
    }

    pub fn read_optimized() -> (r: Self)
        ensures
            r == default_pool_with(SqliteTuningProfile::ReadOptimized, 4),
    {
        SqlitePoolConfig { tuning_profile: SqliteTuningProfile::ReadOptimized, ..Self::default() }
    }

    /// The agent profile, with up to 5 connections.
    pub fn agent() -> (r: Self)
        ensures
            r == default_pool_with(SqliteTuningProfile::Agent, 5),
    {
        SqlitePoolConfig {
            tuning_profile: SqliteTuningProfile::Agent,
            max_connections: 5,
            ..Self::default()
        }
    }

    /// Sets the pool size; the maximum is raised to the minimum if below it.
    pub fn with_pool_size(self, min_connections: u32, max_connections: u32) -> (r: Self)
        ensures
            r == (SqlitePoolConfig {
                min_connections,
                max_connections: if max_connections < min_connections {
                    min_connections
                } else {
                    max_connections
                },
                ..self
            }),
    {
        let max_connections: u32 = if max_connections < min_connections {
            min_connections
        } else {
            max_connections
        };
        SqlitePoolConfig { min_connections, max_connections, ..self }
    }

    pub fn with_acquire_timeout_secs(self, seconds: u64) -> (r: Self)
        ensures
            r == (SqlitePoolConfig { acquire_timeout: secs_span(seconds), ..self }),
    {
        SqlitePoolConfig { acquire_timeout: TimeSpan::from_secs(seconds), ..self }
    }

    /// Sets the idle timeout; `None` keeps idle connections forever.
    pub fn with_idle_timeout_secs(self, seconds: Option<u64>) -> (r: Self)
        ensures
            r == (SqlitePoolConfig {
                idle_timeout: match seconds {
                    Some(s) => Some(secs_span(s)),
                    None => None,
                },
                ..self
            }),
    {
        let idle_timeout = match seconds {
            Some(s) => Some(TimeSpan::from_secs(s)),
            None => None,
        };
        SqlitePoolConfig { idle_timeout, ..self }
    }

    pub fn with_busy_timeout_secs(self, seconds: u64) -> (r: Self)
        ensures
            r == (SqlitePoolConfig { busy_timeout: secs_span(seconds), ..self }),
    {
        SqlitePoolConfig { busy_timeout: TimeSpan::from_secs(seconds), ..self }
    }

    pub fn with_foreign_keys(self, enabled: bool) -> (r: Self)
        ensures
            r == (SqlitePoolConfig { foreign_keys: enabled, ..self }),
    {
        SqlitePoolConfig { foreign_keys: enabled, ..self }
    }
}

/// The journal, synchronous and pragma settings a profile applies to each
/// connection.
#[derive(Debug, Clone)]
pub struct SqliteTuning {
    /// Journal mode WAL.
    pub wal: bool,
    /// `synchronous = NORMAL`.
    pub synchronous_normal: bool,
    /// Further `PRAGMA name = value` settings, in the order they are applied.
    pub pragmas: Vec<(&'static str, &'static str)>,
}

/// The names and values of a pragma list.
pub open spec fn pragmas_view(p: Seq<(&'static str, &'static str)>) -> Seq<(Seq<char>, Seq<char>)> {
    p.map_values(|e: (&'static str, &'static str)| (e.0@, e.1@))
}

/// The pragmas each profile sets beyond the journal and synchronous modes.
pub open spec fn profile_pragmas(profile: SqliteTuningProfile) -> Seq<(Seq<char>, Seq<char>)> {
    match profile {
        SqliteTuningProfile::ReadOptimized => seq![
            ("mmap_size"@, "268435456"@),
            ("cache_size"@, "-16000"@),
            ("temp_store"@, "MEMORY"@),
            ("auto_vacuum"@, "INCREMENTAL"@),
        ],
        SqliteTuningProfile::Agent => seq![
            ("mmap_size"@, "134217728"@),
            ("cache_size"@, "-8000"@),
            ("temp_store"@, "MEMORY"@),
            ("auto_vacuum"@, "INCREMENTAL"@),
        ],
        _ => Seq::empty(),
    }
}

fn pragma_list(mmap: &'static str, cache: &'static str) -> (v: Vec<(&'static str, &'static str)>)
    ensures
        pragmas_view(v@) == seq![
            ("mmap_size"@, mmap@),
            ("cache_size"@, cache@),
            ("temp_store"@, "MEMORY"@),
            ("auto_vacuum"@, "INCREMENTAL"@),
        ],
{
    let mut v: Vec<(&'static str, &'static str)> = Vec::new();
    v.push(("mmap_size", mmap));
    v.push(("cache_size", cache));
    v.push(("temp_store", "MEMORY"));
    v.push(("auto_vacuum", "INCREMENTAL"));
    assert(pragmas_view(v@) =~= seq![
        ("mmap_size"@, mmap@),
        ("cache_size"@, cache@),
        ("temp_store"@, "MEMORY"@),
        ("auto_vacuum"@, "INCREMENTAL"@),
    ]);
    v
}

impl SqliteTuningProfile {
    /// The connection settings of the profile: minimal changes nothing; the
    /// others use WAL with `synchronous = NORMAL`, and the read-optimized
    /// and agent profiles add memory-map, cache, temp-store and
    /// incremental auto-vacuum pragmas.
    pub fn tuning(self) -> (t: SqliteTuning)
        ensures
            t.wal == (self != SqliteTuningProfile::Minimal),
            t.synchronous_normal == (self != SqliteTuningProfile::Minimal),
            pragmas_view(t.pragmas@) == profile_pragmas(self),
    {
        match self {
            SqliteTuningProfile::Minimal => {
                let t = SqliteTuning { wal: false, synchronous_normal: false, pragmas: Vec::new() };
                assert(pragmas_view(t.pragmas@) =~= Seq::empty());
                t
            },
            SqliteTuningProfile::Service => {
                let t = SqliteTuning { wal: true, synchronous_normal: true, pragmas: Vec::new() };
                assert(pragmas_view(t.pragmas@) =~= Seq::empty());
                t
            },
            SqliteTuningProfile::ReadOptimized => SqliteTuning {
                wal: true,
                synchronous_normal: true,
                pragmas: pragma_list("268435456", "-16000"),
            },
            SqliteTuningProfile::Agent => SqliteTuning {
                wal: true,
                synchronous_normal: true,
                pragmas: pragma_list("134217728", "-8000"),
            },
        }
    }
}

/// The database URL for a path: the path itself when it is the in-memory
/// name or already a `sqlite:` URL, else `sqlite:///` followed by the path.
pub open spec fn database_url_of(path: Seq<char>) -> Seq<char> {
    if path == SQLITE_MEMORY@ || "sqlite:"@.is_prefix_of(path) {
        path
    } else {
        "sqlite:///"@ + path
    }
}

pub fn database_url_from_path(path: &str) -> (url: String)
    ensures
        url@ == database_url_of(path@),
{
    let v = chars_of(path);
    let memory = chars_of(SQLITE_MEMORY);
    let scheme = chars_of("sqlite:");
    if chars_eq(&v, &memory) || starts_with(&v, &scheme) {
        owned(path)
    } else {
        let mut url = owned("sqlite:///");
        push_str(&mut url, path);
        url
    }
}

/// The file path a database URL names, or `None` for an in-memory
/// database: the trimmed URL without its `sqlite://` or `sqlite:` scheme.
pub open spec fn database_path_of(url: Seq<char>) -> Option<Seq<char>> {
    let v = trim(url);
    if v == ":memory:"@ || v == "sqlite::memory:"@ {
        None
    } else if "sqlite://"@.is_prefix_of(v) {
        Some(v.skip(9))
    } else if "sqlite:"@.is_prefix_of(v) {
        let rest = v.skip(7);
        if rest == ":memory:"@ || rest == "memory:"@ {
            None
        } else {
            Some(rest)
        }
    } else {
        Some(v)
    }
}

pub fn database_path_from_url(database_url: &str) -> (r: Option<String>)
    ensures
        r matches Some(p) ==> database_path_of(database_url@) == Some(p@),
        r is None ==> database_path_of(database_url@) is None,
{
    proof {
        reveal_strlit("sqlite://");
        reveal_strlit("sqlite:");
    }
    let raw = chars_of(database_url);
    let v = trim_chars(&raw);
    let memory = chars_of(":memory:");
    let memory_url = chars_of("sqlite::memory:");
    let memory_short = chars_of("memory:");
    let full = chars_of("sqlite://");
    let scheme = chars_of("sqlite:");
    if chars_eq(&v, &memory) || chars_eq(&v, &memory_url) {
        return None;
    }
    if starts_with(&v, &full) {
        let rest = sub_chars(&v, 9, v.len());
        assert(rest@ == v@.skip(9));
        return Some(string_of(&rest));
    }
    if starts_with(&v, &scheme) {
        let rest = sub_chars(&v, 7, v.len());
        assert(rest@ == v@.skip(7));
        if chars_eq(&rest, &memory) || chars_eq(&rest, &memory_short) {
            return None;
        }
        return Some(string_of(&rest));
    }
    Some(string_of(&v))
}

/// The error for a database file path that cannot be used: an empty path,
/// or a path that names a directory.
pub open spec fn database_path_problem(path: Seq<char>, is_dir: bool) -> Option<Seq<char>> {
    if path.len() == 0 {
        Some("SQLite database path cannot be empty"@)
    } else if is_dir {
        Some("SQLite database path must be a file path, not a directory"@)
    } else {
        None
    }
}

/// Checks the file path of a database before its directory is created;
/// `is_dir` tells whether the path names an existing directory.
pub fn check_database_path(path: &str, is_dir: bool) -> (r: Result<(), CoreError>)
    ensures
        r is Ok <==> database_path_problem(path@, is_dir) is None,
        r matches Err(e) ==> e matches CoreError::InvalidInput(m)
            && database_path_problem(path@, is_dir) == Some(m@),
{
    if path.is_empty() {
        return Err(CoreError::InvalidInput(owned("SQLite database path cannot be empty")));
    }
    if is_dir {
        return Err(
            CoreError::InvalidInput(
                owned("SQLite database path must be a file path, not a directory"),
            ),
        );
    }
    Ok(())
}

} // verus!
