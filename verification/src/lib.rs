use vstd::prelude::*;

pub mod text;
pub mod error;
pub mod api;
pub mod hash;
pub mod sqlite;
pub mod sqlite_maintenance;
pub mod sqlite_query;
pub mod env_file;
pub mod paths;
pub mod numparse;
pub mod config;
pub mod role_policy;
pub mod deploy_artifact;
pub mod platform;
pub mod cli;
pub mod filesystem;
pub mod logging;

verus! {

} // verus!
