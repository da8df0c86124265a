//! Local management of Codex homes: finding them, listing their sessions by provider,
//! replicating and cleaning up sessions, switching a home's provider safely, copying
//! sessions between homes, and keeping the desktop client and the image tool in step.
//!
//! Each module holds the decisions of one part, stated over spec functions and proved;
//! reading and writing files, processes and databases is left to the caller.
use vstd::prelude::*;

pub mod agents;
pub mod agents_bytes;
pub mod agents_lines;
pub mod app_server;
pub mod buckets;
pub mod config_edit;
pub mod discovery;
pub mod error;
pub mod home_state;
pub mod mcp;
pub mod models;
pub mod operations;
pub mod paths;
pub mod payload;
pub mod platform;
pub mod portable;
pub mod process;
pub mod process_tree;
pub mod profiles;
pub mod provider;
pub mod provider_settings;
pub mod replication;
pub mod rollout;
pub mod sessions;
pub mod store;
pub mod switching;
pub mod sync;
pub mod text;
pub mod toml_doc;

verus! {

} // verus!
