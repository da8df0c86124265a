use codex_local_sync::provider_settings::{save_step, SaveAction, SavePhase};
use codex_local_sync::error::AppError;
use codex_local_sync::models::{DiscoveredProvider, Profile, ProfileKind, ProfileMode};
use codex_local_sync::payload::JsonValue;
use codex_local_sync::provider::digest;
use codex_local_sync::provider_settings::{
    after_failed_recovery, after_recovery_rollback, check_case_conflict, check_saved_definition,
    failed_switch_error, is_oauth_auth, official_snapshot_status, profile_after_switch,
    read_and_verify, read_for_profile, reveal_key, save_request, should_capture_snapshot,
    HomeFiles, ProviderConfigInput, RecoveryAction,
};
use codex_local_sync::store::{OfficialSnapshotRow, ProviderConfigRow};

fn text(s: &str) -> JsonValue {
    JsonValue::Text(s.to_string())
}

fn obj(entries: Vec<(&str, JsonValue)>) -> JsonValue {
    JsonValue::Object(entries.into_iter().map(|(k, v)| (k.to_string(), v)).collect())
}

fn input(id: &str, url: Option<&str>, key: Option<&str>, template: Option<&str>) -> ProviderConfigInput {
    ProviderConfigInput {
        profile_id: "p".into(),
        provider_id: id.into(),
        base_url: url.map(str::to_string),
        api_key: key.map(str::to_string),
        template: template.map(str::to_string),
    }
}

fn row(key: &str) -> ProviderConfigRow {
    ProviderConfigRow {
        profile_id: "p".into(),
        provider_id: "relay".into(),
        base_url: "https://relay.example/v1".into(),
        requires_openai_auth: true,
        api_key: key.into(),
        managed_by_tool: true,
        created_at: String::new(),
        updated_at: String::new(),
    }
}

#[test]
fn saving_checks_the_form() {
    let q = save_request(&input(" relay ", Some(" https://relay.example/v1/ "), Some(" sk-1 "), None), None)
        .unwrap();
    assert_eq!(q.provider_id, "relay");
    assert_eq!(q.api_key, "sk-1");
    assert_eq!(q.base_url, "https://relay.example/v1");
    let q = save_request(&input("", None, Some("k"), Some("711ev")), None).unwrap();
    assert_eq!(q.provider_id, "711EV");
    assert_eq!(q.base_url, "https://ai.711ev.com/v1");
    assert_eq!(
        save_request(&input("OpenAI", Some("https://x"), Some("k"), None), None).unwrap_err().message(),
        "官方供应商不支持编辑 API 密钥"
    );
    assert_eq!(
        save_request(&input("relay", Some("https://x"), Some("  "), None), None).unwrap_err().message(),
        "API 密钥不能为空"
    );
    assert_eq!(
        save_request(&input("relay", Some("https://x"), None, None), Some("stored".into()))
            .unwrap()
            .api_key,
        "stored"
    );
    assert_eq!(
        save_request(&input("relay", None, Some("k"), None), None).unwrap_err().message(),
        "API 地址不能为空"
    );
    assert!(save_request(&input("relay", Some("http://x"), Some("k"), None), None).is_err());
    assert!(save_request(&input("a/b", Some("https://x"), Some("k"), None), None).is_err());
}

#[test]
fn provider_ids_differing_only_in_case_conflict() {
    assert!(check_case_conflict(&vec!["relay".into()], &vec![], "relay").is_ok());
    assert_eq!(
        check_case_conflict(&vec!["Relay".into()], &vec!["RELAY".into()], "relay").unwrap_err().message(),
        "供应商 ID 与已有配置 Relay 仅大小写不同，请使用其他 ID"
    );
    assert!(check_case_conflict(&vec![], &vec!["RELAY".into()], "relay").is_err());
}

#[test]
fn revealing_and_oauth() {
    assert_eq!(reveal_key(Some(row("sk"))).unwrap(), "sk");
    assert!(reveal_key(None).is_err());
    let oauth = obj(vec![("tokens", obj(vec![("refresh_token", text("r"))]))]);
    assert!(is_oauth_auth(&Some(oauth)));
    assert!(!is_oauth_auth(&Some(obj(vec![("tokens", obj(vec![("id_token", text(" "))]))]))));
    assert!(!is_oauth_auth(&Some(obj(vec![("OPENAI_API_KEY", text("k"))]))));
    assert!(!is_oauth_auth(&None));
}

#[test]
fn kept_official_login_status() {
    let snapshot = OfficialSnapshotRow {
        profile_id: "p".into(),
        snapshot_path: "/s".into(),
        source_sha256: digest(b"auth"),
        source_modified_at: None,
        captured_at: "now".into(),
    };
    assert_eq!(official_snapshot_status(&Some(snapshot.clone()), &Some(b"auth".to_vec())), "available");
    assert_eq!(official_snapshot_status(&Some(snapshot.clone()), &Some(b"other".to_vec())), "conflict");
    assert_eq!(official_snapshot_status(&Some(snapshot.clone()), &None), "missing");
    assert_eq!(official_snapshot_status(&None, &Some(b"auth".to_vec())), "missing");
    let oauth = Some(obj(vec![("tokens", obj(vec![("access_token", text("a"))]))]));
    assert!(should_capture_snapshot(&oauth, "h", &None, false));
    assert!(!should_capture_snapshot(&oauth, &digest(b"auth"), &Some(snapshot.clone()), true));
    assert!(should_capture_snapshot(&oauth, &digest(b"auth"), &Some(snapshot), false));
    assert!(!should_capture_snapshot(&None, "h", &None, false));
}

#[test]
fn settings_view_of_a_configured_relay() {
    let config = obj(vec![
        ("model_provider", text("relay")),
        ("cli_auth_credentials_store", text("file")),
        (
            "model_providers",
            obj(vec![(
                "relay",
                obj(vec![
                    ("name", text("relay")),
                    ("base_url", text("https://relay.example/v1")),
                    ("wire_api", text("responses")),
                    ("requires_openai_auth", JsonValue::Bool(true)),
                    ("experimental_bearer_token", text("sk-1234567890")),
                ]),
            )]),
        ),
    ]);
    let files = HomeFiles {
        config_bytes: b"cfg".to_vec(),
        config,
        auth_empty: false,
        auth: Some(obj(vec![("OPENAI_API_KEY", text("sk-1234567890"))])),
        config_file: "/h/config.toml".into(),
        auth_file: "/h/auth.json".into(),
    };
    let view = read_for_profile("p", "relay", &files, &Some(row("sk-1234567890")), &None, &None);
    assert_eq!(view.base_url.as_deref(), Some("https://relay.example/v1"));
    assert!(view.active_key_files_match_database);
    assert!(!view.has_pending_changes);
    assert_eq!(view.auth_kind, "database_api_key");
    assert_eq!(view.auth_storage, "file");
    assert!(view.can_switch);
    assert!(view.configured);
    assert_eq!(view.api_key_masked.as_deref(), Some("sk-1...7890"));
    assert_eq!(view.official_auth_snapshot_status, "missing");
    assert_eq!(view.config_fingerprint, digest(b"cfg"));

    let other = read_for_profile("p", "missing", &files, &None, &None, &None);
    assert!(!other.configured);
    assert!(!other.can_switch);
    assert_eq!(other.base_url, None);

    assert!(check_saved_definition(&files.config, "relay", &row("x"), "relay").is_ok());
    assert_eq!(
        check_saved_definition(&files.config, "relay", &row("x"), "openai").unwrap_err().message(),
        "保存供应商时当前 model_provider 被意外改变"
    );
    assert_eq!(
        check_saved_definition(&files.config, "nope", &row("x"), "relay").unwrap_err().message(),
        "供应商配置写入后未找到目标 section"
    );
}

#[test]
fn switching_marks_the_provider_active() {
    let profile = Profile {
        id: "p".into(),
        name: "p".into(),
        kind: ProfileKind::CustomApi,
        mode: ProfileMode::External,
        codex_home: "/h".into(),
        provider_id: "openai".into(),
        app_path: None,
        discovery_source: "test".into(),
        providers: vec![DiscoveredProvider { id: "openai".into(), source_file: "/h/config.toml".into(), active: true }],
        config_profiles: Vec::new(),
        created_at: "c".into(),
        updated_at: "u".into(),
    };
    let after = profile_after_switch(&profile, "relay", "/h/config.toml", "now");
    assert_eq!(after.provider_id, "relay");
    assert_eq!(after.providers.len(), 2);
    assert!(!after.providers[0].active);
    assert!(after.providers[1].active);
    assert_eq!(after.updated_at, "now");
    let back = profile_after_switch(&after, "openai", "/h/config.toml", "later");
    assert_eq!(back.providers.len(), 2);
    assert!(back.providers[0].active);
    assert!(!back.providers[1].active);
}

#[test]
fn switch_and_recovery_errors() {
    let e = AppError::Message("boom".into());
    assert_eq!(failed_switch_error(e.clone(), Ok(())), e);
    assert_eq!(
        failed_switch_error(e.clone(), Err(AppError::Message("rb".into()))).message(),
        "供应商切换失败，且回滚未完成: boom; rb"
    );
    match after_failed_recovery(&AppError::Message("auth.json 在事务恢复前已被其他内容修改，不能覆盖".into())) {
        RecoveryAction::Keep(k) => assert!(k.message().starts_with("未完成的供应商切换检测到外部文件改动")),
        RecoveryAction::RollBack => panic!("expected the switch to be kept"),
    }
    assert!(matches!(after_failed_recovery(&e), RecoveryAction::RollBack));
    assert!(after_recovery_rollback(&e, Ok(())).is_ok());
    assert_eq!(
        after_recovery_rollback(&e, Err(AppError::Message("rb".into()))).unwrap_err().message(),
        "未完成的供应商切换无法恢复或回滚: boom; rb"
    );
    assert_eq!(read_and_verify(Ok(b"x".to_vec()), &digest(b"x"), "配置候选文件").unwrap(), b"x".to_vec());
    assert_eq!(
        read_and_verify(Ok(b"x".to_vec()), "bad", "配置候选文件").unwrap_err().message(),
        "配置候选文件完整性校验失败"
    );
    assert_eq!(
        read_and_verify(Err("gone".into()), "bad", "配置候选文件").unwrap_err().message(),
        "无法读取配置候选文件: gone"
    );
}

#[test]
fn a_save_records_then_writes_rereads_and_rolls_back_on_a_mismatch() {
    let r = row("sk");
    assert!(matches!(save_step(true, "relay", &r, "openai", SavePhase::Begin), SaveAction::SaveRow));
    assert!(matches!(save_step(false, "relay", &r, "openai", SavePhase::RowSaved { result: Ok(()) }), SaveAction::Finished(Ok(()))));
    assert!(matches!(save_step(true, "relay", &r, "openai", SavePhase::RowSaved { result: Ok(()) }), SaveAction::WriteCandidate));
    assert!(matches!(save_step(true, "relay", &r, "openai", SavePhase::Written { result: Ok(()) }), SaveAction::Reread));
    match save_step(true, "relay", &r, "openai", SavePhase::Reread { result: Ok(obj(vec![("model_provider", text("relay"))])) }) {
        SaveAction::RollBack { error } => assert_eq!(error.message(), "保存供应商时当前 model_provider 被意外改变"),
        _ => panic!("a changed provider in use is rolled back"),
    }
    match save_step(true, "relay", &r, "openai", SavePhase::RolledBack { error: codex_local_sync::error::AppError::Message("x".into()) }) {
        SaveAction::Finished(Err(e)) => assert_eq!(e.message(), "x"),
        _ => panic!("the error is handed back"),
    }
}
