//! Committing a provider switch, and resuming one that an earlier run left unfinished.
//!
//! A switch replaces `config.toml` and `auth.json` of a home with candidates prepared in
//! advance, recording in the database how far it got. The caller performs each read, write
//! and update; `switch_step` decides from its outcome what comes next.
use vstd::prelude::*;

use crate::error::AppError;
use crate::provider::{
    auth_changed_message, config_changed_message, digest, ensure_auth_is_original_or_target, hex_digit,
    hex_of, mismatch_message, parse_phase, phase_of, prepared_config_step, reread_message,
    sha256_of, unknown_phase_message, verify_hash, SwitchPhase,
};
use crate::provider_settings::{read_and_verify, unreadable_text};
use crate::agents::utf8_bytes;
use crate::store::{OfficialSnapshotRow, ProviderConfigRow, ProviderSwitchTransactionRow};
use crate::text::{eq_ignore_case, lit, lower, opt_chars, str_eq};
use vstd::utf8::encode_utf8;

verus! {

/// Which check a read of `config.toml` serves.
#[derive(Debug, Clone, Copy, PartialEq, Eq, Structural)]
pub enum ConfigCheck {
    /// Resuming a prepared switch: the file must be the original or the target.
    Prepared,
    /// Right after it was written: it must hold the target.
    Written,
    /// Resuming a switch whose configuration was committed: it must still hold the target.
    Committed,
    /// The final validation.
    Validate,
}

/// Which check a read of `auth.json` serves.
#[derive(Debug, Clone, Copy, PartialEq, Eq, Structural)]
pub enum AuthCheck {
    /// Resuming: the file must be the original or the target.
    Untouched,
    /// Right after it was written: it must hold the target.
    Written,
    /// The final validation.
    Validate,
}

/// What the caller did last, with its outcome. A read gives the file's bytes, `None`
/// where it could not be read; a candidate read gives the read error's text.
#[derive(Debug)]
pub enum SwitchProgress {
    Commit,
    Resume,
    ConfigRead { check: ConfigCheck, content: Option<Vec<u8>> },
    ConfigBackupRead { current: Option<String>, content: Option<Vec<u8>> },
    ConfigCandidateRead { result: Result<Vec<u8>, String> },
    ConfigWritten { result: Result<(), AppError> },
    ConfigCommittedRecorded { result: Result<(), AppError> },
    AuthRead { check: AuthCheck, content: Option<Vec<u8>> },
    AuthBackupRead { current: Option<String>, content: Option<Vec<u8>> },
    AuthCandidateRead { result: Result<Vec<u8>, String> },
    AuthWritten { result: Result<(), AppError> },
    AuthRemoved { result: Result<(), AppError> },
    AuthCommittedRecorded { result: Result<(), AppError> },
    AuthPresence { present: bool },
    ValidatedRecorded { result: Result<(), AppError> },
}

/// What the caller does next. `current` is handed back with the backup's content.
#[derive(Debug, Clone, PartialEq, Eq)]
pub enum SwitchAction {
    ReadConfig { check: ConfigCheck },
    ReadConfigBackup { current: Option<String> },
    ReadConfigCandidate,
    WriteConfig { bytes: Vec<u8> },
    RecordConfigCommitted,
    ReadAuth { check: AuthCheck },
    ReadAuthBackup { current: Option<String> },
    ReadAuthCandidate,
    WriteAuth { bytes: Vec<u8> },
    /// Remove `auth.json` where it exists.
    RemoveAuth,
    RecordAuthCommitted,
    /// Tell whether `auth.json` exists.
    CheckAuthAbsent,
    RecordValidated,
    Finished,
    Failed(AppError),
}

/// The hash of what a read gave.
pub open spec fn content_hash(c: Option<Vec<u8>>) -> Option<Seq<char>> {
    match c {
        Some(b) => Some(hex_of(sha256_of(b@))),
        None => None,
    }
}

pub open spec fn fails_with(r: SwitchAction, text: Seq<char>) -> bool {
    r matches SwitchAction::Failed(e) && e is Message && e.text() == text
}

/// The message of a failed check that a file holds what was written.
pub open spec fn verify_failure(h: Option<Seq<char>>, label: Seq<char>) -> Seq<char> {
    if h is None {
        reread_message(label)
    } else {
        mismatch_message(label)
    }
}

pub open spec fn missing_auth_hash_text() -> Seq<char> {
    "认证候选文件缺少期望哈希，无法继续切换"@
}

pub open spec fn auth_still_present_text() -> Seq<char> {
    "auth.json 应已删除，但重新读取时仍然存在"@
}

/// Where putting the target `auth.json` in place starts: reading the candidate, or removing
/// the file where the target has none.
pub open spec fn auth_apply_ok(t: ProviderSwitchTransactionRow, r: SwitchAction) -> bool {
    if t.auth_target_exists {
        match t.expected_auth_sha256 {
            None => fails_with(r, missing_auth_hash_text()),
            Some(_) => r == SwitchAction::ReadAuthCandidate,
        }
    } else {
        r == SwitchAction::RemoveAuth
    }
}

/// A prepared switch resumed: the configuration is left alone where it already is the
/// target, written where it still is the original, and refused otherwise.
pub open spec fn prepared_ok(
    t: ProviderSwitchTransactionRow,
    current: Option<Seq<char>>,
    original: Option<Seq<char>>,
    r: SwitchAction,
) -> bool {
    if current == Some(t.expected_config_sha256@) {
        r == SwitchAction::ReadConfig { check: ConfigCheck::Written }
    } else if current == original {
        r == SwitchAction::ReadConfigCandidate
    } else {
        fails_with(r, config_changed_message())
    }
}

/// A resumed switch touches `auth.json` only where it is the original or the target.
pub open spec fn untouched_ok(
    t: ProviderSwitchTransactionRow,
    current: Option<Seq<char>>,
    original: Option<Seq<char>>,
    r: SwitchAction,
) -> bool {
    if current == original || current == opt_chars(t.expected_auth_sha256) {
        auth_apply_ok(t, r)
    } else {
        fails_with(r, auth_changed_message())
    }
}

pub open spec fn then_ok(result: Result<(), AppError>, next: SwitchAction, r: SwitchAction) -> bool {
    match result {
        Err(e) => r == SwitchAction::Failed(e),
        Ok(_) => r == next,
    }
}

/// A candidate read: written where its hash is the expected one.
pub open spec fn candidate_ok(
    result: Result<Vec<u8>, String>,
    expected: Seq<char>,
    label: Seq<char>,
    config: bool,
    r: SwitchAction,
) -> bool {
    match result {
        Err(e) => fails_with(r, unreadable_text(label, e@)),
        Ok(b) => if hex_of(sha256_of(b@)) == expected {
            if config {
                r matches SwitchAction::WriteConfig { bytes } && bytes@ == b@
            } else {
                r matches SwitchAction::WriteAuth { bytes } && bytes@ == b@
            }
        } else {
            fails_with(r, label + "完整性校验失败"@)
        },
    }
}

/// The next step of a switch, from the transaction and what was done last. `resuming`
/// tells a switch resumed after a restart from one being committed now.
pub open spec fn switch_step_ok(
    t: ProviderSwitchTransactionRow,
    resuming: bool,
    p: SwitchProgress,
    r: SwitchAction,
) -> bool {
    let expected = t.expected_config_sha256@;
    match p {
        SwitchProgress::Commit => r == SwitchAction::ReadConfigCandidate,
        SwitchProgress::Resume => match phase_of(t.phase@) {
            None => fails_with(r, unknown_phase_message(t.phase@)),
            Some(SwitchPhase::Prepared) => r == SwitchAction::ReadConfig {
                check: ConfigCheck::Prepared,
            },
            Some(SwitchPhase::ConfigCommitted) => r == SwitchAction::ReadConfig {
                check: ConfigCheck::Committed,
            },
            Some(_) => r == SwitchAction::ReadConfig { check: ConfigCheck::Validate },
        },
        SwitchProgress::ConfigRead { check, content } => {
            let h = content_hash(content);
            match check {
                ConfigCheck::Prepared => if t.config_existed {
                    r matches SwitchAction::ReadConfigBackup { current } && opt_chars(current) == h
                } else {
                    prepared_ok(t, h, None, r)
                },
                ConfigCheck::Written => if h == Some(expected) {
                    r == SwitchAction::RecordConfigCommitted
                } else {
                    fails_with(r, verify_failure(h, "config.toml"@))
                },
                ConfigCheck::Committed => if h == Some(expected) {
                    r == SwitchAction::ReadAuth { check: AuthCheck::Untouched }
                } else {
                    fails_with(r, verify_failure(h, "config.toml"@))
                },
                ConfigCheck::Validate => if h == Some(expected) {
                    if t.auth_target_exists {
                        r == SwitchAction::ReadAuth { check: AuthCheck::Validate }
                    } else {
                        r == SwitchAction::CheckAuthAbsent
                    }
                } else {
                    fails_with(r, verify_failure(h, "config.toml"@))
                },
            }
        },
        SwitchProgress::ConfigBackupRead { current, content } => prepared_ok(
            t,
            opt_chars(current),
            content_hash(content),
            r,
        ),
        SwitchProgress::ConfigCandidateRead { result } => candidate_ok(
            result,
            expected,
            "配置候选文件"@,
            true,
            r,
        ),
        SwitchProgress::ConfigWritten { result } => then_ok(
            result,
            SwitchAction::ReadConfig { check: ConfigCheck::Written },
            r,
        ),
        SwitchProgress::ConfigCommittedRecorded { result } => match result {
            Err(e) => r == SwitchAction::Failed(e),
            Ok(_) => if resuming {
                r == SwitchAction::ReadAuth { check: AuthCheck::Untouched }
            } else {
                auth_apply_ok(t, r)
            },
        },
        SwitchProgress::AuthRead { check, content } => {
            let h = content_hash(content);
            match check {
                AuthCheck::Untouched => if t.auth_existed {
                    r matches SwitchAction::ReadAuthBackup { current } && opt_chars(current) == h
                } else {
                    untouched_ok(t, h, None, r)
                },
                AuthCheck::Written => match t.expected_auth_sha256 {
                    None => fails_with(r, missing_auth_hash_text()),
                    Some(x) => if h == Some(x@) {
                        r == SwitchAction::RecordAuthCommitted
                    } else {
                        fails_with(r, verify_failure(h, "auth.json"@))
                    },
                },
                AuthCheck::Validate => {
                    let x = match t.expected_auth_sha256 {
                        Some(x) => x@,
                        None => Seq::<char>::empty(),
                    };
                    if h == Some(x) {
                        r == SwitchAction::RecordValidated
                    } else {
                        fails_with(r, verify_failure(h, "auth.json"@))
                    }
                },
            }
        },
        SwitchProgress::AuthBackupRead { current, content } => untouched_ok(
            t,
            opt_chars(current),
            content_hash(content),
            r,
        ),
        SwitchProgress::AuthCandidateRead { result } => match t.expected_auth_sha256 {
            None => fails_with(r, missing_auth_hash_text()),
            Some(x) => candidate_ok(result, x@, "认证候选文件"@, false, r),
        },
        SwitchProgress::AuthWritten { result } => then_ok(
            result,
            SwitchAction::ReadAuth { check: AuthCheck::Written },
            r,
        ),
        SwitchProgress::AuthRemoved { result } => then_ok(
            result,
            SwitchAction::RecordAuthCommitted,
            r,
        ),
        SwitchProgress::AuthCommittedRecorded { result } => then_ok(
            result,
            SwitchAction::ReadConfig { check: ConfigCheck::Validate },
            r,
        ),
        SwitchProgress::AuthPresence { present } => if present {
            fails_with(r, auth_still_present_text())
        } else {
            r == SwitchAction::RecordValidated
        },
        SwitchProgress::ValidatedRecorded { result } => then_ok(result, SwitchAction::Finished, r),
    }
}

/// The hash of what a read gave.
fn hash_content(content: &Option<Vec<u8>>) -> (r: Option<String>)
    ensures
        opt_chars(r) == content_hash(*content),
{
    match content {
        Some(b) => Some(digest(b.as_slice())),
        None => None,
    }
}

fn failed(message: &str) -> (r: SwitchAction)
    ensures
        fails_with(r, message@),
{
    SwitchAction::Failed(AppError::Message(message.to_string()))
}

fn start_auth(t: &ProviderSwitchTransactionRow) -> (r: SwitchAction)
    ensures
        auth_apply_ok(*t, r),
{
    if t.auth_target_exists {
        match &t.expected_auth_sha256 {
            None => failed("认证候选文件缺少期望哈希，无法继续切换"),
            Some(_) => SwitchAction::ReadAuthCandidate,
        }
    } else {
        SwitchAction::RemoveAuth
    }
}

fn after_prepared_check(t: &ProviderSwitchTransactionRow, current: &Option<String>, original: &Option<String>) -> (r: SwitchAction)
    ensures
        prepared_ok(*t, opt_chars(*current), opt_chars(*original), r),
{
    match prepared_config_step(current, original, t.expected_config_sha256.as_str()) {
        Err(e) => SwitchAction::Failed(e),
        Ok(true) => SwitchAction::ReadConfigCandidate,
        Ok(false) => SwitchAction::ReadConfig { check: ConfigCheck::Written },
    }
}

fn after_untouched_check(t: &ProviderSwitchTransactionRow, current: &Option<String>, original: &Option<String>) -> (r: SwitchAction)
    ensures
        untouched_ok(*t, opt_chars(*current), opt_chars(*original), r),
{
    match ensure_auth_is_original_or_target(current, original, &t.expected_auth_sha256) {
        Err(e) => SwitchAction::Failed(e),
        Ok(()) => start_auth(t),
    }
}

fn after_step(result: Result<(), AppError>, next: SwitchAction) -> (r: SwitchAction)
    ensures
        then_ok(result, next, r),
{
    match result {
        Err(e) => SwitchAction::Failed(e),
        Ok(()) => next,
    }
}

fn after_candidate(result: Result<Vec<u8>, String>, expected: &str, label: &str, config: bool) -> (r: SwitchAction)
    ensures
        candidate_ok(result, expected@, label@, config, r),
{
    match read_and_verify(result, expected, label) {
        Err(e) => SwitchAction::Failed(e),
        Ok(bytes) => if config {
            SwitchAction::WriteConfig { bytes }
        } else {
            SwitchAction::WriteAuth { bytes }
        },
    }
}

/// The next step of a switch: see `switch_step_ok`.
pub fn switch_step(t: &ProviderSwitchTransactionRow, resuming: bool, progress: SwitchProgress) -> (r: SwitchAction)
    ensures
        switch_step_ok(*t, resuming, progress, r),
{
    let expected = t.expected_config_sha256.as_str();
    match progress {
        SwitchProgress::Commit => SwitchAction::ReadConfigCandidate,
        SwitchProgress::Resume => match parse_phase(t.phase.as_str()) {
            Err(e) => SwitchAction::Failed(e),
            Ok(SwitchPhase::Prepared) => SwitchAction::ReadConfig { check: ConfigCheck::Prepared },
            Ok(SwitchPhase::ConfigCommitted) => SwitchAction::ReadConfig {
                check: ConfigCheck::Committed,
            },
            Ok(_) => SwitchAction::ReadConfig { check: ConfigCheck::Validate },
        },
        SwitchProgress::ConfigRead { check, content } => {
            let h = hash_content(&content);
            match check {
                ConfigCheck::Prepared => if t.config_existed {
                    SwitchAction::ReadConfigBackup { current: h }
                } else {
                    after_prepared_check(t, &h, &None)
                },
                ConfigCheck::Written => match verify_hash(&h, expected, "config.toml") {
                    Err(e) => SwitchAction::Failed(e),
                    Ok(()) => SwitchAction::RecordConfigCommitted,
                },
                ConfigCheck::Committed => match verify_hash(&h, expected, "config.toml") {
                    Err(e) => SwitchAction::Failed(e),
                    Ok(()) => SwitchAction::ReadAuth { check: AuthCheck::Untouched },
                },
                ConfigCheck::Validate => match verify_hash(&h, expected, "config.toml") {
                    Err(e) => SwitchAction::Failed(e),
                    Ok(()) => if t.auth_target_exists {
                        SwitchAction::ReadAuth { check: AuthCheck::Validate }
                    } else {
                        SwitchAction::CheckAuthAbsent
                    },
                },
            }
        },
        SwitchProgress::ConfigBackupRead { current, content } => {
            let original = hash_content(&content);
            after_prepared_check(t, &current, &original)
        },
        SwitchProgress::ConfigCandidateRead { result } => after_candidate(
            result,
            expected,
            "配置候选文件",
            true,
        ),
        SwitchProgress::ConfigWritten { result } => after_step(
            result,
            SwitchAction::ReadConfig { check: ConfigCheck::Written },
        ),
        SwitchProgress::ConfigCommittedRecorded { result } => match result {
            Err(e) => SwitchAction::Failed(e),
            Ok(()) => if resuming {
                SwitchAction::ReadAuth { check: AuthCheck::Untouched }
            } else {
                start_auth(t)
            },
        },
        SwitchProgress::AuthRead { check, content } => {
            let h = hash_content(&content);
            match check {
                AuthCheck::Untouched => if t.auth_existed {
                    SwitchAction::ReadAuthBackup { current: h }
                } else {
                    after_untouched_check(t, &h, &None)
                },
                AuthCheck::Written => match &t.expected_auth_sha256 {
                    None => failed("认证候选文件缺少期望哈希，无法继续切换"),
                    Some(x) => match verify_hash(&h, x.as_str(), "auth.json") {
                        Err(e) => SwitchAction::Failed(e),
                        Ok(()) => SwitchAction::RecordAuthCommitted,
                    },
                },
                AuthCheck::Validate => {
                    let x: String = match &t.expected_auth_sha256 {
                        Some(x) => x.clone(),
                        None => String::new(),
                    };
                    match verify_hash(&h, x.as_str(), "auth.json") {
                        Err(e) => SwitchAction::Failed(e),
                        Ok(()) => SwitchAction::RecordValidated,
                    }
                },
            }
        },
        SwitchProgress::AuthBackupRead { current, content } => {
            let original = hash_content(&content);
            after_untouched_check(t, &current, &original)
        },
        SwitchProgress::AuthCandidateRead { result } => match &t.expected_auth_sha256 {
            None => failed("认证候选文件缺少期望哈希，无法继续切换"),
            Some(x) => after_candidate(result, x.as_str(), "认证候选文件", false),
        },
        SwitchProgress::AuthWritten { result } => after_step(
            result,
            SwitchAction::ReadAuth { check: AuthCheck::Written },
        ),
        SwitchProgress::AuthRemoved { result } => after_step(result, SwitchAction::RecordAuthCommitted),
        SwitchProgress::AuthCommittedRecorded { result } => after_step(
            result,
            SwitchAction::ReadConfig { check: ConfigCheck::Validate },
        ),
        SwitchProgress::AuthPresence { present } => if present {
            failed("auth.json 应已删除，但重新读取时仍然存在")
        } else {
            SwitchAction::RecordValidated
        },
        SwitchProgress::ValidatedRecorded { result } => after_step(result, SwitchAction::Finished),
    }
}

/// A switch writes `config.toml` only with bytes whose hash is the one the transaction
/// expects, and `auth.json` only with bytes whose hash is the expected one for it.
pub proof fn law_switch_writes_only_expected_content(
    t: ProviderSwitchTransactionRow,
    resuming: bool,
    p: SwitchProgress,
    r: SwitchAction,
)
    requires
        switch_step_ok(t, resuming, p, r),
    ensures
        r matches SwitchAction::WriteConfig { bytes } ==> hex_of(sha256_of(bytes@))
            == t.expected_config_sha256@,
        r matches SwitchAction::WriteAuth { bytes } ==> t.expected_auth_sha256 matches Some(x)
            && hex_of(sha256_of(bytes@)) == x@,
{
}

/// A resumed switch goes on to write `config.toml` only where the file is still the
/// original: one that someone else changed is never overwritten.
pub proof fn law_resume_keeps_foreign_config(
    t: ProviderSwitchTransactionRow,
    p: SwitchProgress,
    r: SwitchAction,
)
    requires
        switch_step_ok(t, true, p, r),
        r == SwitchAction::ReadConfigCandidate,
    ensures
        p is Commit || (p matches SwitchProgress::ConfigBackupRead { current, content }
            && opt_chars(current) == content_hash(content)) || (p matches SwitchProgress::ConfigRead {
            check,
            content,
        } && check == ConfigCheck::Prepared && !t.config_existed && content_hash(content) is None),
{
}

/// A resumed switch touches `auth.json` only where it still is the original or already
/// is the target.
pub proof fn law_resume_keeps_foreign_auth(
    t: ProviderSwitchTransactionRow,
    p: SwitchProgress,
    r: SwitchAction,
)
    requires
        switch_step_ok(t, true, p, r),
        r == SwitchAction::ReadAuthCandidate || r == SwitchAction::RemoveAuth,
    ensures
        (p matches SwitchProgress::AuthBackupRead { current, content } && (opt_chars(current)
            == content_hash(content) || opt_chars(current) == opt_chars(t.expected_auth_sha256)))
            || (p matches SwitchProgress::AuthRead { check, content } && check == AuthCheck::Untouched
            && !t.auth_existed && (content_hash(content) is None || content_hash(content) == opt_chars(
            t.expected_auth_sha256,
        ))),
{
}

/// A switch is finished only once its validation was recorded.
pub proof fn law_finished_only_when_validated(
    t: ProviderSwitchTransactionRow,
    resuming: bool,
    p: SwitchProgress,
    r: SwitchAction,
)
    requires
        switch_step_ok(t, resuming, p, r),
        r == SwitchAction::Finished,
    ensures
        p matches SwitchProgress::ValidatedRecorded { result } && result is Ok,
{
}

// ---------------------------------------------------------------------------
// What a switch writes
// ---------------------------------------------------------------------------

/// The official provider's id.
pub open spec fn official_id() -> Seq<char> {
    "openai"@
}

/// Whether a switch goes to the official provider (in any ASCII case).
pub fn is_official(provider_id: &str) -> (r: bool)
    ensures
        r == (lower(provider_id@) == lower(official_id())),
{
    eq_ignore_case(&lit(provider_id), &lit("openai"))
}

/// What a switch writes from: the official login, or a relay's saved settings.
pub enum SwitchTarget {
    Official,
    Relay(ProviderConfigRow),
}

pub open spec fn not_configured_text() -> Seq<char> {
    "该供应商尚未配置 API 密钥，请先完成配置"@
}

/// The target of a switch to `provider_id`: the official provider (in any ASCII case), or a
/// relay whose settings were saved (`row`); a relay without saved settings cannot be
/// switched to.
pub fn switch_target_of(provider_id: &str, row: Option<ProviderConfigRow>) -> (r: Result<SwitchTarget, AppError>)
    ensures
        lower(provider_id@) == lower(official_id()) ==> r matches Ok(SwitchTarget::Official),
        lower(provider_id@) != lower(official_id()) ==> match row {
            Some(x) => r matches Ok(SwitchTarget::Relay(y)) && y == x,
            None => r matches Err(e) && e is Message && e.text() == not_configured_text(),
        },
{
    if is_official(provider_id) {
        return Ok(SwitchTarget::Official);
    }
    match row {
        Some(x) => Ok(SwitchTarget::Relay(x)),
        None => Err(AppError::Message("该供应商尚未配置 API 密钥，请先完成配置".to_string())),
    }
}

pub open spec fn snapshot_corrupt_text() -> Seq<char> {
    "官方凭据快照完整性校验失败，已中止切换"@
}

/// The `auth.json` a switch to the official provider writes: the kept copy of the
/// official login, where one is recorded and its file exists (`copy` is its content), and
/// none otherwise. A copy whose hash differs from the recorded one stops the switch.
pub fn official_auth_target(snapshot: &Option<OfficialSnapshotRow>, copy: Option<Vec<u8>>) -> (r:
    Result<Option<Vec<u8>>, AppError>)
    ensures
        match (snapshot, copy) {
            (Some(s), Some(b)) => if hex_of(sha256_of(b@)) == s.source_sha256@ {
                r matches Ok(Some(v)) && v@ == b@
            } else {
                r matches Err(e) && e is Message && e.text() == snapshot_corrupt_text()
            },
            _ => r matches Ok(None),
        },
{
    match (snapshot, copy) {
        (Some(s), Some(b)) => {
            if str_eq(digest(b.as_slice()).as_str(), s.source_sha256.as_str()) {
                Ok(Some(b))
            } else {
                Err(AppError::Message("官方凭据快照完整性校验失败，已中止切换".to_string()))
            }
        },
        _ => Ok(None),
    }
}

/// A character as serde_json writes it inside a JSON string: `"` and `\` escaped with a
/// backslash, backspace, tab, line feed, form feed and carriage return as `\b \t \n \f \r`,
/// the other characters below U+0020 as `\u00` and two lowercase hexadecimal digits, and
/// every other character as itself.
pub open spec fn json_escaped_char(c: char) -> Seq<char> {
    let n = c as u32;
    if c == '"' {
        seq!['\\', '"']
    } else if c == '\\' {
        seq!['\\', '\\']
    } else if n == 8 {
        seq!['\\', 'b']
    } else if n == 9 {
        seq!['\\', 't']
    } else if n == 10 {
        seq!['\\', 'n']
    } else if n == 12 {
        seq!['\\', 'f']
    } else if n == 13 {
        seq!['\\', 'r']
    } else if n < 32 {
        seq!['\\', 'u', '0', '0', hex_digit((n / 16) as u8), hex_digit((n % 16) as u8)]
    } else {
        seq![c]
    }
}

/// The characters of a text, each escaped as serde_json writes it.
pub open spec fn json_escaped(s: Seq<char>) -> Seq<char>
    decreases s.len(),
{
    if s.len() == 0 {
        Seq::empty()
    } else {
        json_escaped(s.drop_last()) + json_escaped_char(s.last())
    }
}

/// A text as a JSON string literal: quoted, with its characters escaped.
pub open spec fn json_quoted(s: Seq<char>) -> Seq<char> {
    seq!['"'] + json_escaped(s) + seq!['"']
}

/// `serde_json::to_vec` on a string: the UTF-8 bytes of its JSON string literal. It always
/// succeeds: serialising a string fails only where writing to the output `Vec<u8>` fails,
/// which never happens.
#[verifier::external_body]
fn json_string(s: &str) -> (r: Result<Vec<u8>, String>)
    ensures
        r is Ok,
        r matches Ok(v) ==> v@ == encode_utf8(json_quoted(s@)),
{
    serde_json::to_vec(s).map_err(|e| e.to_string())
}

pub open spec fn auth_head() -> Seq<char> {
    "{\n  \"OPENAI_API_KEY\": "@
}

pub open spec fn auth_tail() -> Seq<char> {
    "\n}"@
}

/// The `auth.json` a switch to a provider with an API key writes: a pretty-printed JSON
/// object with the key under `OPENAI_API_KEY`. It is always written.
pub fn api_key_auth(api_key: &str) -> (r: Result<Vec<u8>, AppError>)
    ensures
        r matches Ok(v) && v@ == encode_utf8(auth_head()) + encode_utf8(json_quoted(api_key@)) + encode_utf8(
            auth_tail(),
        ),
{
    match json_string(api_key) {
        Err(e) => Err(AppError::Message(e)),
        Ok(quoted) => {
            let mut out = utf8_bytes(&lit("{\n  \"OPENAI_API_KEY\": "));
            let ghost head = out@;
            let mut i: usize = 0;
            while i < quoted.len()
                invariant
                    i <= quoted@.len(),
                    out@ == head + quoted@.subrange(0, i as int),
                decreases quoted@.len() - i,
            {
                out.push(quoted[i]);
                assert(out@ =~= head + quoted@.subrange(0, i + 1));
                i = i + 1;
            }
            assert(quoted@.subrange(0, quoted@.len() as int) =~= quoted@);
            let tail = utf8_bytes(&lit("\n}"));
            let ghost middle = out@;
            let mut j: usize = 0;
            while j < tail.len()
                invariant
                    j <= tail@.len(),
                    out@ == middle + tail@.subrange(0, j as int),
                decreases tail@.len() - j,
            {
                out.push(tail[j]);
                assert(out@ =~= middle + tail@.subrange(0, j + 1));
                j = j + 1;
            }
            assert(tail@.subrange(0, tail@.len() as int) =~= tail@);
            Ok(out)
        },
    }
}

// ---------------------------------------------------------------------------
// Rolling back
// ---------------------------------------------------------------------------

/// A file of a home that a switch replaces.
#[derive(Debug, Clone, Copy, PartialEq, Eq, Structural)]
pub enum HomeFile {
    Config,
    Auth,
}

/// How a rollback puts a file back: from its backup, or by removing it where the switch
/// created it.
#[derive(Debug, Clone, PartialEq, Eq)]
pub enum RollbackStep {
    Restore { file: HomeFile, backup_path: String },
    Remove { file: HomeFile },
}

pub open spec fn rollback_step_of(existed: bool, file: HomeFile, backup: Seq<char>, r: RollbackStep) -> bool {
    if existed {
        r matches RollbackStep::Restore { file: f, backup_path } && f == file && backup_path@ == backup
    } else {
        r == RollbackStep::Remove { file }
    }
}

/// Rolling a switch back: `config.toml`, then `auth.json`, each restored from its backup
/// where it existed before the switch and removed otherwise.
pub fn rollback_steps(t: &ProviderSwitchTransactionRow) -> (r: Vec<RollbackStep>)
    ensures
        r@.len() == 2,
        rollback_step_of(t.config_existed, HomeFile::Config, t.config_backup_path@, r@[0]),
        rollback_step_of(t.auth_existed, HomeFile::Auth, t.auth_backup_path@, r@[1]),
{
    let config = if t.config_existed {
        RollbackStep::Restore { file: HomeFile::Config, backup_path: t.config_backup_path.clone() }
    } else {
        RollbackStep::Remove { file: HomeFile::Config }
    };
    let auth = if t.auth_existed {
        RollbackStep::Restore { file: HomeFile::Auth, backup_path: t.auth_backup_path.clone() }
    } else {
        RollbackStep::Remove { file: HomeFile::Auth }
    };
    vec![config, auth]
}

pub open spec fn lost_backup_text(file: HomeFile) -> Seq<char> {
    match file {
        HomeFile::Config => "事务中的 config.toml 原始文件已丢失，无法回滚"@,
        HomeFile::Auth => "事务中的 auth.json 原始文件已丢失，无法回滚"@,
    }
}

/// The error of a rollback whose backup of the file is gone.
pub fn lost_backup_error(file: HomeFile) -> (r: AppError)
    ensures
        r is Message && r.text() == lost_backup_text(file),
{
    match file {
        HomeFile::Config => AppError::Message("事务中的 config.toml 原始文件已丢失，无法回滚".to_string()),
        HomeFile::Auth => AppError::Message("事务中的 auth.json 原始文件已丢失，无法回滚".to_string()),
    }
}

} // verus!
