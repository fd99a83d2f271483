//! The application configuration as plain values: stream credentials and
//! the mapping from events to action strings.  Reading and decoding the
//! configuration file happens outside the library; the version check on
//! what was read is here.

use vstd::prelude::*;
use vstd::string::StringExecFns;

use crate::text::string_eq;

verus! {

/// The whole configuration file.
#[derive(Debug)]
pub struct AppConfig {
    pub version: String,
    pub file_log_level: String,
    pub terminal_log_level: String,
    pub twitch_stream: TwitchStreamConfig,
    pub mapping: Mapping,
}

/// Credentials and channel for the stream connection.
#[derive(Debug)]
pub struct TwitchStreamConfig {
    pub user: String,
    pub token: String,
    pub channel: String,
    pub client_id: String,
}

/// The list of event-to-action mappings.
#[derive(Debug)]
pub struct Mapping {
    pub config: Vec<MappingConfig>,
}

/// One event-to-action mapping: which source it listens on, what it
/// matches, and the action strings it compiles to.
#[derive(Debug)]
pub struct MappingConfig {
    pub source: String,
    pub id: String,
    pub actions: Vec<String>,
    pub name: String,
    pub category: String,
    pub comparison: String,
    pub limit: Option<u16>,
}

/// The configuration layout version this library understands.
pub open spec fn current_version() -> Seq<char> {
    "1.0"@
}

impl AppConfig {
    /// Whether the configuration carries the layout version this library
    /// understands; a configuration with any other version is rejected by
    /// the caller.
    pub fn version_supported(&self) -> (r: bool)
        ensures
            r == (self.version@ == current_version()),
    {
        let expected: String = "1.0".to_owned();
        string_eq(&self.version, &expected)
    }
}

} // verus!
