//! The crate-wide error type and the outside error types it carries.
use vstd::prelude::*;

use crate::text::{owned, push_str};

verus! {

#[verifier::external_type_specification]
#[verifier::external_body]
pub struct ExIoError(std::io::Error);

#[verifier::external_type_specification]
#[verifier::external_body]
pub struct ExJsonError(serde_json::Error);

#[verifier::external_type_specification]
#[verifier::external_body]
pub struct ExSqlxError(sqlx::Error);

#[verifier::external_type_specification]
#[verifier::external_body]
pub struct ExMigrateError(sqlx::migrate::MigrateError);

/// `Display` of `std::io::Error`; nothing is promised of the text, which
/// may hold an operating-system message.
#[verifier::external_body]
pub(crate) fn io_error_text(e: &std::io::Error) -> String {
    e.to_string()
}

/// `Display` of `serde_json::Error`; nothing is promised of the text.
#[verifier::external_body]
pub(crate) fn json_error_text(e: &serde_json::Error) -> String {
    e.to_string()
}

/// `Display` of `sqlx::Error`; nothing is promised of the text, which may
/// hold a message of the database engine.
#[verifier::external_body]
fn sqlx_error_text(e: &sqlx::Error) -> String {
    e.to_string()
}

/// `Display` of `sqlx::migrate::MigrateError`; nothing is promised of the text.
#[verifier::external_body]
fn migrate_error_text(e: &sqlx::migrate::MigrateError) -> String {
    e.to_string()
}

/// Errors of the core library.
#[derive(Debug)]
pub enum CoreError {
    InvalidInput(String),
    NotFound(String),
    Conflict(String),
    Io(std::io::Error),
    Sqlite(sqlx::Error),
    Migration(sqlx::migrate::MigrateError),
    Json(serde_json::Error),
}

/// The text that `CoreError` displays before the message of its variant.
pub open spec fn core_error_prefix(e: CoreError) -> Seq<char> {
    match e {
        CoreError::InvalidInput(_) => "invalid input: "@,
        CoreError::NotFound(_) => "not found: "@,
        CoreError::Conflict(_) => "conflict: "@,
        CoreError::Io(_) => "io error: "@,
        CoreError::Sqlite(_) => "sqlite error: "@,
        CoreError::Migration(_) => "migration error: "@,
        CoreError::Json(_) => "json error: "@,
    }
}

impl CoreError {
    /// The human-readable form of the error: a prefix naming the kind of
    /// error, then its message.
    pub fn to_display_string(&self) -> (s: String)
        ensures
            core_error_prefix(*self).is_prefix_of(s@),
            self matches CoreError::InvalidInput(m) ==> s@ == "invalid input: "@ + m@,
            self matches CoreError::NotFound(m) ==> s@ == "not found: "@ + m@,
            self matches CoreError::Conflict(m) ==> s@ == "conflict: "@ + m@,
    {
        let (prefix, detail) = match self {
            CoreError::InvalidInput(m) => ("invalid input: ", owned(m.as_str())),
            CoreError::NotFound(m) => ("not found: ", owned(m.as_str())),
            CoreError::Conflict(m) => ("conflict: ", owned(m.as_str())),
            CoreError::Io(e) => ("io error: ", io_error_text(e)),
            CoreError::Sqlite(e) => ("sqlite error: ", sqlx_error_text(e)),
            CoreError::Migration(e) => ("migration error: ", migrate_error_text(e)),
            CoreError::Json(e) => ("json error: ", json_error_text(e)),
        };
        let mut s = owned(prefix);
        push_str(&mut s, detail.as_str());
        assert(prefix@.is_prefix_of(s@));
        s
    }
}

} // verus!
