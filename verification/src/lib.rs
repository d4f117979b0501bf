//! Phaneros: content-addressed folder synchronisation.
//!
//! The library holds the logic of the sync engine (tree stores, transfer
//! planning, reconciliation), its configuration model and the text that the
//! command-line and desktop front ends show.
use vstd::prelude::*;

pub mod blob_repository;
pub mod cli;
pub mod clock;
pub mod config;
pub mod daemon;
pub mod desktop;
pub mod digest;
pub mod drive_id;
pub mod engine;
pub mod file_chunker;
pub mod http;
pub mod ignore_filter;
pub mod launchd;
pub mod model;
pub mod node_repository;
pub mod observer;
pub mod remote_listener;
pub mod store;
pub mod store_dump;
pub mod syncer;
pub mod telemetry;
pub mod text;
pub mod ui;
pub mod units;
pub mod utils;

verus! {

} // verus!
