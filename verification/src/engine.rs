//! How a drive's sync engine is set up: its configuration and the errors
//! that starting or driving it can give.
use vstd::prelude::*;

use crate::text::push_str;

verus! {

/// What an engine syncs and how.
#[derive(Debug, Clone)]
pub struct EngineConfig {
    pub path: String,
    pub store_url: String,
    pub drive_id: String,
    pub token: String,
    pub dump_store: Option<String>,
    pub enable_telemetry: bool,
    pub max_concurrent_uploads: usize,
}

impl EngineConfig {
    /// A configuration with telemetry off and up to 10 uploads at a time.
    pub fn new(path: String, store_url: String, drive_id: String, token: String, dump_store: Option<String>) -> (r:
        Self)
        ensures
            r.path == path,
            r.store_url == store_url,
            r.drive_id == drive_id,
            r.token == token,
            r.dump_store == dump_store,
            !r.enable_telemetry,
            r.max_concurrent_uploads == 10,
    {
        EngineConfig {
            path,
            store_url,
            drive_id,
            token,
            dump_store,
            enable_telemetry: false,
            max_concurrent_uploads: 10,
        }
    }

    /// The same configuration with telemetry turned on or off.
    pub fn with_telemetry(self, enabled: bool) -> (r: Self)
        ensures
            r == (EngineConfig { enable_telemetry: enabled, ..self }),
    {
        EngineConfig { enable_telemetry: enabled, ..self }
    }

    /// The same configuration with another limit on uploads at a time.
    pub fn with_max_concurrent_uploads(self, max: usize) -> (r: Self)
        ensures
            r == (EngineConfig { max_concurrent_uploads: max, ..self }),
    {
        EngineConfig { max_concurrent_uploads: max, ..self }
    }
}

/// Why an engine could not start or sync.
#[derive(Debug, Clone)]
pub enum EngineError {
    DriveSessionFailed(String),
    WatcherFailed(String),
    TriggerSyncFailed(String),
}

pub open spec fn engine_error_text(e: EngineError) -> Seq<char> {
    match e {
        EngineError::DriveSessionFailed(m) => "Failed to initialize sync state drive session: "@ + m@,
        EngineError::WatcherFailed(m) => "Failed to start directory watcher: "@ + m@,
        EngineError::TriggerSyncFailed(m) => "Failed to trigger a manual sync: "@ + m@,
    }
}

impl EngineError {
    /// The error as text.
    pub fn message(&self) -> (r: String)
        ensures
            r@ == engine_error_text(*self),
    {
        let (prefix, m) = match self {
            EngineError::DriveSessionFailed(m) => ("Failed to initialize sync state drive session: ", m),
            EngineError::WatcherFailed(m) => ("Failed to start directory watcher: ", m),
            EngineError::TriggerSyncFailed(m) => ("Failed to trigger a manual sync: ", m),
        };
        let mut r = String::from_str(prefix);
        push_str(&mut r, m.as_str());
        r
    }
}

/// A drive's sync engine, not started yet.
#[derive(Debug)]
pub struct SyncEngine {
    config: EngineConfig,
}

impl SyncEngine {
    /// The configuration it runs with.
    pub closed spec fn spec_config(&self) -> EngineConfig {
        self.config
    }

    /// An engine for `config`.
    pub fn new(config: EngineConfig) -> (r: Self)
        ensures
            r.spec_config() == config,
    {
        SyncEngine { config }
    }

    /// The configuration it runs with.
    pub fn config(&self) -> (r: &EngineConfig)
        ensures
            *r == self.spec_config(),
    {
        &self.config
    }
}

} // verus!
