//! Saving a provider's settings, and what the settings page shows of a provider: both
//! decided from what `config.toml`, `auth.json` and the tool's records hold.
use vstd::prelude::*;

use crate::error::AppError;
use crate::payload::{field, get_field, get_text, text_of, trimmed_nonempty, JsonValue};
use crate::provider::{
    digest, hex_of, mask_key, masked, normalize_url, normalized_url, sha256_of, valid_provider_id,
    validate_provider_id,
};
use crate::models::{DiscoveredProvider, Profile};
use crate::store::{OfficialSnapshotRow, ProviderConfigRow, ProviderSwitchTransactionRow};
use crate::text::{chars_of, concat, eq_ignore_case, lit, lower, opt_chars, str_eq, string_of, to_text, trim, trim_by, ws};

verus! {

broadcast use vstd::string::group_string_axioms;

// ---------------------------------------------------------------------------
// Saving
// ---------------------------------------------------------------------------

/// What the user enters to save a provider.
#[derive(Debug, Clone)]
pub struct ProviderConfigInput {
    pub profile_id: String,
    pub provider_id: String,
    pub base_url: Option<String>,
    pub api_key: Option<String>,
    pub template: Option<String>,
}

/// The settings a save writes.
#[derive(Debug)]
pub struct SaveRequest {
    pub provider_id: String,
    pub api_key: String,
    pub base_url: String,
}

pub open spec fn seven_eleven_id() -> Seq<char> {
    "711EV"@
}

pub open spec fn seven_eleven_url() -> Seq<char> {
    "https://ai.711ev.com/v1"@
}

pub open spec fn uses_template(input: ProviderConfigInput) -> bool {
    opt_chars(input.template) == Some("711ev"@)
}

/// The provider id saved: the one entered, trimmed; with the 711EV template and nothing
/// entered, `711EV`.
pub open spec fn saved_provider_id(input: ProviderConfigInput) -> Seq<char> {
    let t = trim_by(input.provider_id@, ws());
    if uses_template(input) && t.len() == 0 {
        seven_eleven_id()
    } else {
        t
    }
}

pub open spec fn official_refused_text() -> Seq<char> {
    "官方供应商不支持编辑 API 密钥"@
}

pub open spec fn empty_key_text() -> Seq<char> {
    "API 密钥不能为空"@
}

pub open spec fn empty_url_text() -> Seq<char> {
    "API 地址不能为空"@
}

/// The key saved: the one entered, trimmed, when not empty; else the key already stored.
pub open spec fn saved_key(input: ProviderConfigInput, stored_key: Option<String>) -> Option<Seq<char>> {
    match trimmed_nonempty(opt_chars(input.api_key)) {
        Some(k) => Some(k),
        None => opt_chars(stored_key),
    }
}

/// The address given: the one entered, trimmed, when not empty; else, with the template,
/// the 711EV address.
pub open spec fn given_url(input: ProviderConfigInput) -> Option<Seq<char>> {
    match trimmed_nonempty(opt_chars(input.base_url)) {
        Some(u) => Some(u),
        None => if uses_template(input) {
            Some(seven_eleven_url())
        } else {
            None
        },
    }
}

/// The id a save uses: the one entered, trimmed, or the 711EV id where the template is
/// chosen and none was entered.
pub fn provider_id_of(input: &ProviderConfigInput) -> (r: String)
    ensures
        r@ == saved_provider_id(*input),
{
    let use_template = match &input.template {
        Some(t) => str_eq(t.as_str(), "711ev"),
        None => false,
    };
    let trimmed = trim(&chars_of(input.provider_id.as_str()));
    proof {
        reveal_strlit("711ev");
        reveal_strlit("711EV");
    }
    if use_template && trimmed.len() == 0 {
        "711EV".to_string()
    } else {
        string_of(&trimmed)
    }
}

/// Checks what the user entered to save a provider, in the order the form is checked: a
/// valid provider id that is not the official one, a key (entered or stored, see
/// [`saved_key`]), and an HTTPS address. `stored_key` is the key the tool already holds for
/// that provider.
pub fn save_request(input: &ProviderConfigInput, stored_key: Option<String>) -> (r: Result<
    SaveRequest,
    AppError,
>)
    ensures
        ({
            let id = saved_provider_id(*input);
            let official = lower(id) == lower("openai"@);
            let key = saved_key(*input, stored_key);
            let url = given_url(*input);
            match r {
                Ok(q) => {
                    &&& valid_provider_id(id) && !official
                    &&& q.provider_id@ == id
                    &&& key == Some(q.api_key@)
                    &&& url is Some && normalized_url(url->0) == Some(q.base_url@)
                },
                Err(e) => e is Message && if !valid_provider_id(id) {
                    e.text() == crate::provider::provider_id_message()
                } else if official {
                    e.text() == official_refused_text()
                } else if key is None {
                    e.text() == empty_key_text()
                } else if url is None {
                    e.text() == empty_url_text()
                } else {
                    normalized_url(url->0) is None && e.text() == crate::provider::https_message()
                },
            }
        }),
{
    let use_template = match &input.template {
        Some(t) => str_eq(t.as_str(), "711ev"),
        None => false,
    };
    let trimmed = trim(&chars_of(input.provider_id.as_str()));
    let id = if use_template && trimmed.len() == 0 {
        "711EV".to_string()
    } else {
        string_of(&trimmed)
    };
    match validate_provider_id(id.as_str()) {
        Ok(()) => {},
        Err(e) => return Err(e),
    }
    if eq_ignore_case(&chars_of(id.as_str()), &lit("openai")) {
        return Err(AppError::Message("官方供应商不支持编辑 API 密钥".to_string()));
    }
    let entered_key = match &input.api_key {
        Some(k) => {
            let t = trim(&chars_of(k.as_str()));
            if t.len() > 0 {
                Some(string_of(&t))
            } else {
                None
            }
        },
        None => None,
    };
    let api_key = match entered_key {
        Some(k) => k,
        None => match stored_key {
            Some(k) => k,
            None => return Err(AppError::Message("API 密钥不能为空".to_string())),
        },
    };
    let entered_url = match &input.base_url {
        Some(u) => {
            let t = trim(&chars_of(u.as_str()));
            if t.len() > 0 {
                Some(string_of(&t))
            } else {
                None
            }
        },
        None => None,
    };
    let raw_url = match entered_url {
        Some(u) => u,
        None => {
            if use_template {
                "https://ai.711ev.com/v1".to_string()
            } else {
                return Err(AppError::Message("API 地址不能为空".to_string()));
            }
        },
    };
    let base_url = match normalize_url(raw_url.as_str()) {
        Ok(u) => u,
        Err(e) => return Err(e),
    };
    Ok(SaveRequest { provider_id: id, api_key, base_url })
}

/// The first id that equals `id` but for ASCII case, or -1.
pub open spec fn case_twin(ids: Seq<String>, id: Seq<char>) -> int
    decreases ids.len(),
{
    if ids.len() == 0 {
        -1
    } else if lower(ids[0]@) == lower(id) && ids[0]@ != id {
        0
    } else {
        let k = case_twin(ids.drop_first(), id);
        if k < 0 {
            -1
        } else {
            k + 1
        }
    }
}

fn find_case_twin(ids: &Vec<String>, id: &str) -> (r: Option<usize>)
    ensures
        match r {
            Some(i) => case_twin(ids@, id@) == i as int && i < ids@.len(),
            None => case_twin(ids@, id@) == -1,
        },
{
    let mut i: usize = 0;
    assert(ids@.skip(0) =~= ids@);
    while i < ids.len()
        invariant
            i <= ids@.len(),
            case_twin(ids@, id@) == if case_twin(ids@.skip(i as int), id@) < 0 {
                -1
            } else {
                case_twin(ids@.skip(i as int), id@) + i
            },
        decreases ids@.len() - i,
    {
        assert(ids@.skip(i as int).drop_first() =~= ids@.skip(i + 1));
        assert(ids@.skip(i as int)[0] == ids@[i as int]);
        if eq_ignore_case(&chars_of(ids[i].as_str()), &chars_of(id)) && !str_eq(ids[i].as_str(), id) {
            return Some(i);
        }
        i = i + 1;
    }
    None
}

pub open spec fn case_conflict_text(existing: Seq<char>) -> Seq<char> {
    "供应商 ID 与已有配置 "@ + existing + " 仅大小写不同，请使用其他 ID"@
}

/// A provider id must not differ only in ASCII case from one already in `config.toml`
/// (`file_ids`, in the table's order) or in the tool's records (`saved_ids`); the first
/// such id found, in that order, is named.
pub fn check_case_conflict(file_ids: &Vec<String>, saved_ids: &Vec<String>, provider_id: &str) -> (r:
    Result<(), AppError>)
    ensures
        r is Ok <==> case_twin(file_ids@, provider_id@) < 0 && case_twin(saved_ids@, provider_id@) < 0,
        r matches Err(e) ==> e is Message && e.text() == case_conflict_text(
            if case_twin(file_ids@, provider_id@) >= 0 {
                file_ids@[case_twin(file_ids@, provider_id@)]@
            } else {
                saved_ids@[case_twin(saved_ids@, provider_id@)]@
            },
        ),
{
    let existing = match find_case_twin(file_ids, provider_id) {
        Some(i) => &file_ids[i],
        None => match find_case_twin(saved_ids, provider_id) {
            Some(i) => &saved_ids[i],
            None => return Ok(()),
        },
    };
    let a = concat(&lit("供应商 ID 与已有配置 "), &chars_of(existing.as_str()));
    Err(AppError::Message(to_text(&concat(&a, &lit(" 仅大小写不同，请使用其他 ID")))))
}

/// The key shown on request: the stored one.
pub fn reveal_key(row: Option<ProviderConfigRow>) -> (r: Result<String, AppError>)
    ensures
        match row {
            Some(v) => r == Ok::<String, AppError>(v.api_key),
            None => r matches Err(e) && e is Message && e.text() == "当前供应商没有可显示的 API 密钥"@,
        },
{
    match row {
        Some(v) => Ok(v.api_key),
        None => Err(AppError::Message("当前供应商没有可显示的 API 密钥".to_string())),
    }
}

// ---------------------------------------------------------------------------
// What the settings page shows
// ---------------------------------------------------------------------------

/// The value under a key of an optional table.
pub open spec fn opt_field(v: Option<JsonValue>, key: Seq<char>) -> Option<JsonValue> {
    match v {
        Some(t) => field(t, key),
        None => None,
    }
}

/// A value's flag, when it is a boolean.
pub open spec fn bool_of(v: Option<JsonValue>) -> Option<bool> {
    match v {
        Some(JsonValue::Bool(b)) => Some(b),
        _ => None,
    }
}

/// The `[model_providers.<id>]` table of a parsed `config.toml`.
pub open spec fn provider_table(config: JsonValue, id: Seq<char>) -> Option<JsonValue> {
    opt_field(field(config, "model_providers"@), id)
}

/// An `auth.json` holds an OAuth login when its `tokens` object has a non-blank access,
/// refresh or id token.
pub open spec fn oauth_of(auth: Option<JsonValue>) -> bool {
    match auth {
        Some(a) => match field(a, "tokens"@) {
            Some(t) => t is Object && (trimmed_nonempty(text_of(field(t, "access_token"@))) is Some
                || trimmed_nonempty(text_of(field(t, "refresh_token"@))) is Some
                || trimmed_nonempty(text_of(field(t, "id_token"@))) is Some),
            None => false,
        },
        None => false,
    }
}

fn nonblank_text(v: &JsonValue, key: &str) -> (r: bool)
    ensures
        r == trimmed_nonempty(text_of(field(*v, key@))) is Some,
{
    match get_text(v, key) {
        Some(t) => trim(&chars_of(t.as_str())).len() > 0,
        None => false,
    }
}

/// `auth` is the parsed `auth.json`, `None` when it is missing or not JSON.
pub fn is_oauth_auth(auth: &Option<JsonValue>) -> (r: bool)
    ensures
        r == oauth_of(*auth),
{
    match auth {
        Some(a) => match get_field(a, "tokens") {
            Some(t) => match t {
                JsonValue::Object(_) => nonblank_text(t, "access_token") || nonblank_text(
                    t,
                    "refresh_token",
                ) || nonblank_text(t, "id_token"),
                _ => false,
            },
            None => false,
        },
        None => false,
    }
}

/// The state of the kept copy of the official login: `available` when the copy reads back
/// with the hash it was taken with, `conflict` when it reads back otherwise, else `missing`.
/// `copy` is the copy's content, when it could be read.
pub open spec fn snapshot_status_text(
    snapshot: Option<OfficialSnapshotRow>,
    copy: Option<Seq<u8>>,
) -> Seq<char> {
    match (snapshot, copy) {
        (Some(s), Some(b)) => if hex_of(sha256_of(b)) == s.source_sha256@ {
            "available"@
        } else {
            "conflict"@
        },
        _ => "missing"@,
    }
}

pub fn official_snapshot_status(snapshot: &Option<OfficialSnapshotRow>, copy: &Option<Vec<u8>>) -> (r:
    String)
    ensures
        r@ == snapshot_status_text(
            *snapshot,
            match copy {
                Some(b) => Some(b@),
                None => None,
            },
        ),
{
    match (snapshot, copy) {
        (Some(s), Some(b)) => {
            if str_eq(digest(b.as_slice()).as_str(), s.source_sha256.as_str()) {
                "available".to_string()
            } else {
                "conflict".to_string()
            }
        },
        _ => "missing".to_string(),
    }
}

/// A provider as the settings page shows it.
#[derive(Debug, Clone)]
pub struct ProviderConfigView {
    pub profile_id: String,
    pub provider_id: String,
    pub base_url: Option<String>,
    pub env_key: Option<String>,
    pub requires_openai_auth: Option<bool>,
    pub experimental_bearer_token_present: bool,
    pub auth_json_api_key_present: bool,
    pub active_key_files_match_database: bool,
    pub config_file: String,
    pub auth_file: String,
    pub auth_kind: String,
    pub auth_storage: String,
    pub official_auth_snapshot_status: String,
    pub official_auth_captured_at: Option<String>,
    pub api_key_masked: Option<String>,
    pub managed_by_tool: bool,
    pub configured: bool,
    pub can_switch: bool,
    pub has_pending_changes: bool,
    pub config_fingerprint: String,
}

/// What a home's files hold, as read for the settings page.
pub struct HomeFiles {
    /// `config.toml` as bytes, and as parsed.
    pub config_bytes: Vec<u8>,
    pub config: JsonValue,
    /// Whether `auth.json` is empty or missing, and its content as parsed (`None` when it
    /// is not JSON).
    pub auth_empty: bool,
    pub auth: Option<JsonValue>,
    /// The paths shown.
    pub config_file: String,
    pub auth_file: String,
}

/// The key in `auth.json`, when it is a non-empty text.
pub open spec fn auth_key_of(auth: Option<JsonValue>) -> Option<Seq<char>> {
    match auth {
        Some(a) => match text_of(field(a, "OPENAI_API_KEY"@)) {
            Some(k) => if k.len() > 0 {
                Some(k)
            } else {
                None
            },
            None => None,
        },
        None => None,
    }
}

/// How the provider authenticates, as shown.
pub open spec fn auth_kind_text(files: HomeFiles, prov: Option<JsonValue>) -> Seq<char> {
    if oauth_of(files.auth) {
        "oauth"@
    } else if text_of(opt_field(prov, "env_key"@)) is Some {
        "environment_api_key"@
    } else if !files.auth_empty && files.auth is None {
        "unknown"@
    } else if auth_key_of(files.auth) is Some {
        "database_api_key"@
    } else {
        "missing"@
    }
}

/// The stored settings differ from the provider's table in `config.toml`.
pub open spec fn pending_changes(row: ProviderConfigRow, prov: Option<JsonValue>, id: Seq<char>) -> bool {
    ||| text_of(opt_field(prov, "name"@)) != Some(id)
    ||| text_of(opt_field(prov, "base_url"@)) != Some(row.base_url@)
    ||| text_of(opt_field(prov, "wire_api"@)) != Some("responses"@)
    ||| bool_of(opt_field(prov, "requires_openai_auth"@)) != Some(row.requires_openai_auth)
    ||| text_of(opt_field(prov, "experimental_bearer_token"@)) != Some(row.api_key@)
}

/// The settings page's view of provider `provider_id` in a home: what its table in
/// `config.toml`, `auth.json`, the tool's record `row` and the kept official login say.
pub open spec fn view_ok(
    v: ProviderConfigView,
    profile_id: Seq<char>,
    provider_id: Seq<char>,
    files: HomeFiles,
    row: Option<ProviderConfigRow>,
    snapshot: Option<OfficialSnapshotRow>,
    status: Seq<char>,
) -> bool {
    let prov = provider_table(files.config, provider_id);
    let official = lower(provider_id) == lower("openai"@);
    let config_key = text_of(opt_field(prov, "experimental_bearer_token"@));
    let auth_key = auth_key_of(files.auth);
    let current = match text_of(field(files.config, "model_provider"@)) {
        Some(c) => c,
        None => Seq::empty(),
    };
    let storage = match text_of(field(files.config, "cli_auth_credentials_store"@)) {
        Some(s) => s,
        None => "unknown"@,
    };
    &&& v.profile_id@ == profile_id
    &&& v.provider_id@ == provider_id
    &&& opt_chars(v.base_url) == match row {
        Some(r) => Some(r.base_url@),
        None => text_of(opt_field(prov, "base_url"@)),
    }
    &&& opt_chars(v.env_key) == text_of(opt_field(prov, "env_key"@))
    &&& v.requires_openai_auth == bool_of(opt_field(prov, "requires_openai_auth"@))
    &&& v.experimental_bearer_token_present == config_key is Some
    &&& v.auth_json_api_key_present == auth_key is Some
    &&& v.active_key_files_match_database == match row {
        Some(r) => lower(current) == lower(provider_id) && config_key == Some(r.api_key@) && auth_key
            == Some(r.api_key@),
        None => false,
    }
    &&& v.config_file == files.config_file
    &&& v.auth_file == files.auth_file
    &&& v.auth_kind@ == auth_kind_text(files, prov)
    &&& v.auth_storage@ == storage
    &&& v.official_auth_snapshot_status@ == status
    &&& v.official_auth_captured_at == match snapshot {
        Some(s) => Some(s.captured_at),
        None => None,
    }
    &&& opt_chars(v.api_key_masked) == match row {
        Some(r) => Some(masked(r.api_key@)),
        None => None,
    }
    &&& v.managed_by_tool == (row matches Some(r) && r.managed_by_tool)
    &&& v.configured == (official || row is Some || prov is Some)
    &&& v.can_switch == (storage == "file"@ && (official || row is Some) && !(official && status
        == "conflict"@))
    &&& v.has_pending_changes == (row matches Some(r) && pending_changes(r, prov, provider_id))
    &&& v.config_fingerprint@ == hex_of(sha256_of(files.config_bytes@))
}

fn opt_table_text(t: Option<&JsonValue>, key: &str) -> (r: Option<String>)
    ensures
        opt_chars(r) == text_of(
            opt_field(
                match t {
                    Some(x) => Some(*x),
                    None => None,
                },
                key@,
            ),
        ),
{
    match t {
        Some(x) => match get_text(x, key) {
            Some(s) => Some(s.clone()),
            None => None,
        },
        None => None,
    }
}

fn opt_table_bool(t: Option<&JsonValue>, key: &str) -> (r: Option<bool>)
    ensures
        r == bool_of(
            opt_field(
                match t {
                    Some(x) => Some(*x),
                    None => None,
                },
                key@,
            ),
        ),
{
    match t {
        Some(x) => match get_field(x, key) {
            Some(JsonValue::Bool(b)) => Some(*b),
            _ => None,
        },
        None => None,
    }
}

fn same_text(a: &Option<String>, b: &str) -> (r: bool)
    ensures
        r == (opt_chars(*a) == Some(b@)),
{
    match a {
        Some(x) => str_eq(x.as_str(), b),
        None => false,
    }
}

/// The settings page's view of a provider (see [`view_ok`]). `snapshot_copy` is the content
/// of the kept official login, when it could be read.
pub fn read_for_profile(
    profile_id: &str,
    provider_id: &str,
    files: &HomeFiles,
    row: &Option<ProviderConfigRow>,
    snapshot: &Option<OfficialSnapshotRow>,
    snapshot_copy: &Option<Vec<u8>>,
) -> (r: ProviderConfigView)
    ensures
        view_ok(
            r,
            profile_id@,
            provider_id@,
            *files,
            *row,
            *snapshot,
            snapshot_status_text(
                *snapshot,
                match snapshot_copy {
                    Some(b) => Some(b@),
                    None => None,
                },
            ),
        ),
{
    let providers = get_field(&files.config, "model_providers");
    let prov = match providers {
        Some(p) => get_field(p, provider_id),
        None => None,
    };
    let ghost gprov = match prov {
        Some(x) => Some(*x),
        None => None::<JsonValue>,
    };
    assert(gprov == provider_table(files.config, provider_id@));
    let official = eq_ignore_case(&chars_of(provider_id), &lit("openai"));
    let config_key = opt_table_text(prov, "experimental_bearer_token");
    let auth_key: Option<String> = match &files.auth {
        Some(a) => match get_text(a, "OPENAI_API_KEY") {
            Some(k) => {
                if chars_of(k.as_str()).len() > 0 {
                    Some(k.clone())
                } else {
                    None
                }
            },
            None => None,
        },
        None => None,
    };
    let current: String = match get_text(&files.config, "model_provider") {
        Some(c) => c.clone(),
        None => String::new(),
    };
    let storage: String = match get_text(&files.config, "cli_auth_credentials_store") {
        Some(s) => s.clone(),
        None => "unknown".to_string(),
    };
    let status = official_snapshot_status(snapshot, snapshot_copy);
    let env_key = opt_table_text(prov, "env_key");
    let oauth = is_oauth_auth(&files.auth);
    let auth_kind = if oauth {
        "oauth".to_string()
    } else if env_key.is_some() {
        "environment_api_key".to_string()
    } else if !files.auth_empty && files.auth.is_none() {
        "unknown".to_string()
    } else if auth_key.is_some() {
        "database_api_key".to_string()
    } else {
        "missing".to_string()
    };
    let is_current = eq_ignore_case(&chars_of(current.as_str()), &chars_of(provider_id));
    let match_database = match row {
        Some(r) => is_current && same_text(&config_key, r.api_key.as_str()) && same_text(
            &auth_key,
            r.api_key.as_str(),
        ),
        None => false,
    };
    let pending = match row {
        Some(r) => {
            let name = opt_table_text(prov, "name");
            let url = opt_table_text(prov, "base_url");
            let wire = opt_table_text(prov, "wire_api");
            let needs_auth = opt_table_bool(prov, "requires_openai_auth");
            !same_text(&name, provider_id) || !same_text(&url, r.base_url.as_str()) || !same_text(
                &wire,
                "responses",
            ) || needs_auth != Some(r.requires_openai_auth) || !same_text(&config_key, r.api_key.as_str())
        },
        None => false,
    };
    let can_switch = str_eq(storage.as_str(), "file") && (official || row.is_some()) && !(official
        && str_eq(status.as_str(), "conflict"));
    ProviderConfigView {
        profile_id: profile_id.to_string(),
        provider_id: provider_id.to_string(),
        base_url: match row {
            Some(r) => Some(r.base_url.clone()),
            None => opt_table_text(prov, "base_url"),
        },
        env_key,
        requires_openai_auth: opt_table_bool(prov, "requires_openai_auth"),
        experimental_bearer_token_present: config_key.is_some(),
        auth_json_api_key_present: auth_key.is_some(),
        active_key_files_match_database: match_database,
        config_file: files.config_file.clone(),
        auth_file: files.auth_file.clone(),
        auth_kind,
        auth_storage: storage,
        official_auth_snapshot_status: status,
        official_auth_captured_at: match snapshot {
            Some(s) => Some(s.captured_at.clone()),
            None => None,
        },
        api_key_masked: match row {
            Some(r) => Some(mask_key(r.api_key.as_str())),
            None => None,
        },
        managed_by_tool: match row {
            Some(r) => r.managed_by_tool,
            None => false,
        },
        configured: official || row.is_some() || prov.is_some(),
        can_switch,
        has_pending_changes: pending,
        config_fingerprint: digest(files.config_bytes.as_slice()),
    }
}

// ---------------------------------------------------------------------------
// Checking a saved provider
// ---------------------------------------------------------------------------

pub open spec fn definition_matches(prov: JsonValue, expected: ProviderConfigRow) -> bool {
    &&& text_of(field(prov, "name"@)) == Some(expected.provider_id@)
    &&& text_of(field(prov, "base_url"@)) == Some(expected.base_url@)
    &&& text_of(field(prov, "wire_api"@)) == Some("responses"@)
    &&& bool_of(field(prov, "requires_openai_auth"@)) == Some(expected.requires_openai_auth)
}

/// After a save, `config.toml` (as parsed again) must still select the provider it
/// selected before, and hold the saved provider's table with its name, address, wire API
/// and OpenAI-auth flag.
pub fn check_saved_definition(
    config: &JsonValue,
    provider_id: &str,
    expected: &ProviderConfigRow,
    previous_current: &str,
) -> (r: Result<(), AppError>)
    ensures
        ({
            let current = match text_of(field(*config, "model_provider"@)) {
                Some(c) => c,
                None => Seq::empty(),
            };
            let prov = provider_table(*config, provider_id@);
            &&& r is Ok <==> current == previous_current@ && prov is Some && definition_matches(
                prov->0,
                *expected,
            )
            &&& r matches Err(e) ==> e is Message && if current != previous_current@ {
                e.text() == "保存供应商时当前 model_provider 被意外改变"@
            } else if prov is None {
                e.text() == "供应商配置写入后未找到目标 section"@
            } else {
                e.text() == "供应商配置写入后字段一致性校验失败"@
            }
        }),
{
    let current = match get_text(config, "model_provider") {
        Some(c) => c.clone(),
        None => String::new(),
    };
    if !str_eq(current.as_str(), previous_current) {
        return Err(AppError::Message("保存供应商时当前 model_provider 被意外改变".to_string()));
    }
    let prov = match get_field(config, "model_providers") {
        Some(p) => get_field(p, provider_id),
        None => None,
    };
    let p = match prov {
        Some(p) => p,
        None => return Err(AppError::Message("供应商配置写入后未找到目标 section".to_string())),
    };
    let flag = match get_field(p, "requires_openai_auth") {
        Some(JsonValue::Bool(b)) => Some(*b),
        _ => None,
    };
    let name_ok = match get_text(p, "name") {
        Some(t) => str_eq(t.as_str(), expected.provider_id.as_str()),
        None => false,
    };
    let url_ok = match get_text(p, "base_url") {
        Some(t) => str_eq(t.as_str(), expected.base_url.as_str()),
        None => false,
    };
    let wire_ok = match get_text(p, "wire_api") {
        Some(t) => str_eq(t.as_str(), "responses"),
        None => false,
    };
    if !(name_ok && url_ok && wire_ok && flag == Some(expected.requires_openai_auth)) {
        return Err(AppError::Message("供应商配置写入后字段一致性校验失败".to_string()));
    }
    Ok(())
}

// ---------------------------------------------------------------------------
// The kept official login
// ---------------------------------------------------------------------------

/// Whether the official login in `auth.json` is to be copied: only an OAuth login, and only
/// when no copy is kept, the kept copy was taken of other content, or its file is gone.
/// `source_sha256` is the hash of `auth.json` as read.
pub fn should_capture_snapshot(
    auth: &Option<JsonValue>,
    source_sha256: &str,
    existing: &Option<OfficialSnapshotRow>,
    copy_is_file: bool,
) -> (r: bool)
    ensures
        r == (oauth_of(*auth) && match existing {
            Some(s) => s.source_sha256@ != source_sha256@ || !copy_is_file,
            None => true,
        }),
{
    if !is_oauth_auth(auth) {
        return false;
    }
    match existing {
        Some(s) => !str_eq(s.source_sha256.as_str(), source_sha256) || !copy_is_file,
        None => true,
    }
}

// ---------------------------------------------------------------------------
// After a switch
// ---------------------------------------------------------------------------

/// The profile after a switch to `provider_id`: that provider is in use, marked active and
/// the others not; when the profile did not list it, it is added (found in `config_file`).
pub fn profile_after_switch(profile: &Profile, provider_id: &str, config_file: &str, now: &str) -> (r:
    Profile)
    ensures
        r.id == profile.id,
        r.name == profile.name,
        r.kind == profile.kind,
        r.mode == profile.mode,
        r.codex_home == profile.codex_home,
        r.app_path == profile.app_path,
        r.config_profiles@ == profile.config_profiles@,
        r.created_at == profile.created_at,
        r.provider_id@ == provider_id@,
        r.updated_at@ == now@,
        ({
            let old = profile.providers@;
            let listed = exists|k: int| 0 <= k < old.len() && (#[trigger] old[k]).id@ == provider_id@;
            &&& r.providers@.len() == old.len() + if listed {
                0int
            } else {
                1int
            }
            &&& forall|k: int|
                0 <= k < old.len() ==> (#[trigger] r.providers@[k]).id == old[k].id
                    && r.providers@[k].source_file == old[k].source_file && r.providers@[k].active
                    == (old[k].id@ == provider_id@)
            &&& !listed ==> r.providers@[old.len() as int].id@ == provider_id@
                && r.providers@[old.len() as int].source_file@ == config_file@
                && r.providers@[old.len() as int].active
        }),
{
    let mut providers: Vec<DiscoveredProvider> = Vec::new();
    let mut listed = false;
    let mut i: usize = 0;
    while i < profile.providers.len()
        invariant
            i <= profile.providers@.len(),
            providers@.len() == i,
            listed == exists|k: int| 0 <= k < i && (#[trigger] profile.providers@[k]).id@ == provider_id@,
            forall|k: int|
                0 <= k < i ==> (#[trigger] providers@[k]).id == profile.providers@[k].id
                    && providers@[k].source_file == profile.providers@[k].source_file
                    && providers@[k].active == (profile.providers@[k].id@ == provider_id@),
        decreases profile.providers@.len() - i,
    {
        let p = &profile.providers[i];
        let active = str_eq(p.id.as_str(), provider_id);
        if active {
            listed = true;
        }
        providers.push(DiscoveredProvider { id: p.id.clone(), source_file: p.source_file.clone(), active });
        i = i + 1;
    }
    if !listed {
        providers.push(
            DiscoveredProvider {
                id: provider_id.to_string(),
                source_file: config_file.to_string(),
                active: true,
            },
        );
    }
    let mut config_profiles = Vec::new();
    let mut j: usize = 0;
    while j < profile.config_profiles.len()
        invariant
            j <= profile.config_profiles@.len(),
            config_profiles@ == profile.config_profiles@.subrange(0, j as int),
        decreases profile.config_profiles@.len() - j,
    {
        let c = &profile.config_profiles[j];
        config_profiles.push(
            crate::models::DiscoveredConfigProfile {
                name: c.name.clone(),
                source_file: c.source_file.clone(),
                provider_id: crate::text::clone_opt(&c.provider_id),
                active: c.active,
            },
        );
        assert(config_profiles@ =~= profile.config_profiles@.subrange(0, j + 1));
        j = j + 1;
    }
    assert(profile.config_profiles@.subrange(0, profile.config_profiles@.len() as int) =~= profile.config_profiles@);
    Profile {
        id: profile.id.clone(),
        name: profile.name.clone(),
        kind: profile.kind,
        mode: profile.mode,
        codex_home: profile.codex_home.clone(),
        provider_id: provider_id.to_string(),
        app_path: crate::text::clone_opt(&profile.app_path),
        discovery_source: profile.discovery_source.clone(),
        providers,
        config_profiles,
        created_at: profile.created_at.clone(),
        updated_at: now.to_string(),
    }
}

pub open spec fn switch_rollback_text(error: Seq<char>, rollback_error: Seq<char>) -> Seq<char> {
    "供应商切换失败，且回滚未完成: "@ + error + "; "@ + rollback_error
}

/// The error of a switch whose commit failed: the failure itself once the files were rolled
/// back, or both when the rollback failed too.
pub fn failed_switch_error(error: AppError, rollback: Result<(), AppError>) -> (r: AppError)
    ensures
        match rollback {
            Ok(()) => r == error,
            Err(e) => r is Message && r.text() == switch_rollback_text(error.text(), e.text()),
        },
{
    match rollback {
        Ok(()) => error,
        Err(e) => {
            let a = concat(&lit("供应商切换失败，且回滚未完成: "), &chars_of(error.message().as_str()));
            let b = concat(&concat(&a, &lit("; ")), &chars_of(e.message().as_str()));
            AppError::Message(to_text(&b))
        },
    }
}

// ---------------------------------------------------------------------------
// Recovering interrupted switches
// ---------------------------------------------------------------------------

/// A switch recorded without its configuration candidate or expected hash cannot be
/// resumed: it is only rolled back.
pub fn restore_only(t: &ProviderSwitchTransactionRow) -> (r: bool)
    ensures
        r == (t.config_candidate_path@.len() == 0 || t.expected_config_sha256@.len() == 0),
{
    chars_of(t.config_candidate_path.as_str()).len() == 0 || chars_of(
        t.expected_config_sha256.as_str(),
    ).len() == 0
}

/// What follows a failed resumption.
#[derive(Debug)]
pub enum RecoveryAction {
    /// Someone else changed the files: keep the switch recorded and report this error.
    Keep(AppError),
    /// Roll the switch back.
    RollBack,
}

pub open spec fn kept_text(error: Seq<char>) -> Seq<char> {
    "未完成的供应商切换检测到外部文件改动，事务已保留: "@ + error
}

/// A resumption refused because a file was changed by someone else (its message says it
/// must not be overwritten) keeps the switch; any other failure rolls it back.
pub fn after_failed_recovery(error: &AppError) -> (r: RecoveryAction)
    ensures
        crate::text::contains(error.text(), "不能覆盖"@) ==> (r matches RecoveryAction::Keep(e) && e is Message
            && e.text() == kept_text(error.text())),
        !crate::text::contains(error.text(), "不能覆盖"@) ==> r is RollBack,
{
    let text = error.message();
    if crate::text::contains_seq(&chars_of(text.as_str()), &lit("不能覆盖")) {
        let m = concat(&lit("未完成的供应商切换检测到外部文件改动，事务已保留: "), &chars_of(text.as_str()));
        RecoveryAction::Keep(AppError::Message(to_text(&m)))
    } else {
        RecoveryAction::RollBack
    }
}

pub open spec fn unrecoverable_text(error: Seq<char>, rollback_error: Seq<char>) -> Seq<char> {
    "未完成的供应商切换无法恢复或回滚: "@ + error + "; "@ + rollback_error
}

/// After rolling back a switch whose resumption failed: done when the rollback worked,
/// otherwise both errors.
pub fn after_recovery_rollback(error: &AppError, rollback: Result<(), AppError>) -> (r: Result<(), AppError>)
    ensures
        match rollback {
            Ok(()) => r is Ok,
            Err(e) => r matches Err(x) && x is Message && x.text() == unrecoverable_text(
                error.text(),
                e.text(),
            ),
        },
{
    match rollback {
        Ok(()) => Ok(()),
        Err(e) => {
            let a = concat(&lit("未完成的供应商切换无法恢复或回滚: "), &chars_of(error.message().as_str()));
            let b = concat(&concat(&a, &lit("; ")), &chars_of(e.message().as_str()));
            Err(AppError::Message(to_text(&b)))
        },
    }
}

pub open spec fn unreadable_text(label: Seq<char>, error: Seq<char>) -> Seq<char> {
    "无法读取"@ + label + ": "@ + error
}

/// A candidate file read for a switch must have the expected hash. `read` is its content,
/// or the read error's text.
pub fn read_and_verify(read: Result<Vec<u8>, String>, expected: &str, label: &str) -> (r: Result<
    Vec<u8>,
    AppError,
>)
    ensures
        match read {
            Err(e) => r matches Err(x) && x is Message && x.text() == unreadable_text(label@, e@),
            Ok(b) => if hex_of(sha256_of(b@)) == expected@ {
                r matches Ok(v) && v@ == b@
            } else {
                r matches Err(x) && x is Message && x.text() == label@ + "完整性校验失败"@
            },
        },
{
    match read {
        Err(e) => {
            let a = concat(&concat(&lit("无法读取"), &chars_of(label)), &lit(": "));
            Err(AppError::Message(to_text(&concat(&a, &chars_of(e.as_str())))))
        },
        Ok(b) => {
            if str_eq(digest(b.as_slice()).as_str(), expected) {
                Ok(b)
            } else {
                Err(AppError::Message(to_text(&concat(&chars_of(label), &lit("完整性校验失败")))))
            }
        },
    }
}


// ---------------------------------------------------------------------------
// The steps of a save
// ---------------------------------------------------------------------------

/// What checking `config` (as parsed again after a save) gives, as [`check_saved_definition`]
/// states it.
pub open spec fn definition_checked(
    config: JsonValue,
    provider_id: Seq<char>,
    expected: ProviderConfigRow,
    previous_current: Seq<char>,
    r: Result<(), AppError>,
) -> bool {
    let current = match text_of(field(config, "model_provider"@)) {
        Some(c) => c,
        None => Seq::empty(),
    };
    let prov = provider_table(config, provider_id);
    &&& r is Ok <==> current == previous_current && prov is Some && definition_matches(prov->0, expected)
    &&& r matches Err(e) ==> e is Message && if current != previous_current {
        e.text() == "保存供应商时当前 model_provider 被意外改变"@
    } else if prov is None {
        e.text() == "供应商配置写入后未找到目标 section"@
    } else {
        e.text() == "供应商配置写入后字段一致性校验失败"@
    }
}

/// What the caller reports after a step of saving a provider's settings.
pub enum SavePhase {
    Begin,
    /// The settings were recorded in the tool's database, or the error.
    RowSaved { result: Result<(), AppError> },
    /// The candidate `config.toml` was written, or the error.
    Written { result: Result<(), AppError> },
    /// `config.toml` read again and parsed, or the error of reading or parsing it.
    Reread { result: Result<JsonValue, AppError> },
    /// The file and the record were put back after `error`.
    RolledBack { error: AppError },
}

/// What the caller does next in a save.
pub enum SaveAction {
    /// Record the settings in the database.
    SaveRow,
    /// Write the candidate `config.toml` (the provider's section brought up to date).
    WriteCandidate,
    /// Read `config.toml` again and parse it.
    Reread,
    /// Put back the file and the record as they were, after `error`.
    RollBack { error: AppError },
    Finished(Result<(), AppError>),
}

/// The step of a save that follows `phase`: the settings are recorded first; where the
/// provider's section is written to `config.toml` (`writes_config`), the candidate is
/// written, read again and checked against the saved settings and the provider in use
/// before (`previous_current`), and any failure there puts the file and record back.
pub open spec fn save_step_ok(
    writes_config: bool,
    provider_id: Seq<char>,
    row: ProviderConfigRow,
    previous_current: Seq<char>,
    phase: SavePhase,
    r: SaveAction,
) -> bool {
    match phase {
        SavePhase::Begin => r == SaveAction::SaveRow,
        SavePhase::RowSaved { result } => match result {
            Err(e) => r == SaveAction::Finished(Err(e)),
            Ok(()) => if writes_config {
                r == SaveAction::WriteCandidate
            } else {
                r == SaveAction::Finished(Ok(()))
            },
        },
        SavePhase::Written { result } => match result {
            Err(e) => r == SaveAction::RollBack { error: e },
            Ok(()) => r == SaveAction::Reread,
        },
        SavePhase::Reread { result } => match result {
            Err(e) => r == SaveAction::RollBack { error: e },
            Ok(config) => match r {
                SaveAction::RollBack { error } => definition_checked(config, provider_id, row, previous_current, Err(error)),
                SaveAction::Finished(Ok(())) => definition_checked(config, provider_id, row, previous_current, Ok(())),
                _ => false,
            },
        },
        SavePhase::RolledBack { error } => r == SaveAction::Finished(Err(error)),
    }
}

/// The next step of saving `row` as `provider_id`'s settings.
pub fn save_step(
    writes_config: bool,
    provider_id: &str,
    row: &ProviderConfigRow,
    previous_current: &str,
    phase: SavePhase,
) -> (r: SaveAction)
    ensures
        save_step_ok(writes_config, provider_id@, *row, previous_current@, phase, r),
{
    match phase {
        SavePhase::Begin => SaveAction::SaveRow,
        SavePhase::RowSaved { result } => match result {
            Err(e) => SaveAction::Finished(Err(e)),
            Ok(()) => if writes_config {
                SaveAction::WriteCandidate
            } else {
                SaveAction::Finished(Ok(()))
            },
        },
        SavePhase::Written { result } => match result {
            Err(e) => SaveAction::RollBack { error: e },
            Ok(()) => SaveAction::Reread,
        },
        SavePhase::Reread { result } => match result {
            Err(e) => SaveAction::RollBack { error: e },
            Ok(config) => match check_saved_definition(&config, provider_id, row, previous_current) {
                Err(e) => SaveAction::RollBack { error: e },
                Ok(()) => SaveAction::Finished(Ok(())),
            },
        },
        SavePhase::RolledBack { error } => SaveAction::Finished(Err(error)),
    }
}

} // verus!
