//! The records the tool keeps in its own database.
use vstd::prelude::*;

verus! {

/// A provider's settings as saved by the tool.
#[derive(Debug, Clone)]
pub struct ProviderConfigRow {
    pub profile_id: String,
    pub provider_id: String,
    pub base_url: String,
    pub requires_openai_auth: bool,
    pub api_key: String,
    pub managed_by_tool: bool,
    pub created_at: String,
    pub updated_at: String,
}

/// A copy of the official account's `auth.json`, kept to restore it.
#[derive(Debug, Clone)]
pub struct OfficialSnapshotRow {
    pub profile_id: String,
    pub snapshot_path: String,
    pub source_sha256: String,
    pub source_modified_at: Option<String>,
    pub captured_at: String,
}

/// A provider switch in progress: the backups, the candidates, the hashes expected once
/// committed, and how far it got.
#[derive(Debug, Clone)]
pub struct ProviderSwitchTransactionRow {
    pub id: String,
    pub profile_id: String,
    pub provider_id: String,
    pub codex_home: String,
    pub config_backup_path: String,
    pub config_existed: bool,
    pub auth_backup_path: String,
    pub auth_existed: bool,
    pub config_candidate_path: String,
    pub auth_candidate_path: String,
    pub auth_target_exists: bool,
    pub expected_config_sha256: String,
    pub expected_auth_sha256: Option<String>,
    pub phase: String,
    pub created_at: String,
}

} // verus!
