use codex_local_sync::error::AppError;
use codex_local_sync::provider::digest;
use codex_local_sync::store::{OfficialSnapshotRow, ProviderSwitchTransactionRow};
use codex_local_sync::switching::{switch_target_of, SwitchTarget};
use codex_local_sync::switching::{
    api_key_auth, is_official, lost_backup_error, official_auth_target, rollback_steps, switch_step,
    AuthCheck, ConfigCheck, HomeFile, RollbackStep, SwitchAction, SwitchProgress,
};

fn transaction(phase: &str, config: &[u8], auth: Option<&[u8]>) -> ProviderSwitchTransactionRow {
    ProviderSwitchTransactionRow {
        id: "t1".into(),
        profile_id: "p1".into(),
        provider_id: "relay".into(),
        codex_home: "/home/u/.codex".into(),
        config_backup_path: "/data/transactions/t1/config.before".into(),
        config_existed: true,
        auth_backup_path: "/data/transactions/t1/auth.before".into(),
        auth_existed: true,
        config_candidate_path: "/data/transactions/t1/config.after".into(),
        auth_candidate_path: "/data/transactions/t1/auth.after".into(),
        auth_target_exists: auth.is_some(),
        expected_config_sha256: digest(config),
        expected_auth_sha256: auth.map(digest),
        phase: phase.into(),
        created_at: "2024-01-01T00:00:00Z".into(),
    }
}

fn message(action: SwitchAction) -> String {
    match action {
        SwitchAction::Failed(AppError::Message(m)) => m,
        other => panic!("expected a failure, got {other:?}"),
    }
}

#[test]
fn a_commit_walks_every_step_to_the_end() {
    let config = b"model_provider = \"relay\"\n".to_vec();
    let auth = b"{\"OPENAI_API_KEY\": \"k\"}".to_vec();
    let t = transaction("prepared", &config, Some(&auth));
    assert_eq!(switch_step(&t, false, SwitchProgress::Commit), SwitchAction::ReadConfigCandidate);
    assert_eq!(
        switch_step(&t, false, SwitchProgress::ConfigCandidateRead { result: Ok(config.clone()) }),
        SwitchAction::WriteConfig { bytes: config.clone() }
    );
    assert_eq!(
        switch_step(&t, false, SwitchProgress::ConfigWritten { result: Ok(()) }),
        SwitchAction::ReadConfig { check: ConfigCheck::Written }
    );
    assert_eq!(
        switch_step(
            &t,
            false,
            SwitchProgress::ConfigRead { check: ConfigCheck::Written, content: Some(config.clone()) }
        ),
        SwitchAction::RecordConfigCommitted
    );
    assert_eq!(
        switch_step(&t, false, SwitchProgress::ConfigCommittedRecorded { result: Ok(()) }),
        SwitchAction::ReadAuthCandidate
    );
    assert_eq!(
        switch_step(&t, false, SwitchProgress::AuthCandidateRead { result: Ok(auth.clone()) }),
        SwitchAction::WriteAuth { bytes: auth.clone() }
    );
    assert_eq!(
        switch_step(&t, false, SwitchProgress::AuthWritten { result: Ok(()) }),
        SwitchAction::ReadAuth { check: AuthCheck::Written }
    );
    assert_eq!(
        switch_step(
            &t,
            false,
            SwitchProgress::AuthRead { check: AuthCheck::Written, content: Some(auth.clone()) }
        ),
        SwitchAction::RecordAuthCommitted
    );
    assert_eq!(
        switch_step(&t, false, SwitchProgress::AuthCommittedRecorded { result: Ok(()) }),
        SwitchAction::ReadConfig { check: ConfigCheck::Validate }
    );
    assert_eq!(
        switch_step(
            &t,
            false,
            SwitchProgress::ConfigRead { check: ConfigCheck::Validate, content: Some(config.clone()) }
        ),
        SwitchAction::ReadAuth { check: AuthCheck::Validate }
    );
    assert_eq!(
        switch_step(
            &t,
            false,
            SwitchProgress::AuthRead { check: AuthCheck::Validate, content: Some(auth.clone()) }
        ),
        SwitchAction::RecordValidated
    );
    assert_eq!(
        switch_step(&t, false, SwitchProgress::ValidatedRecorded { result: Ok(()) }),
        SwitchAction::Finished
    );
}

#[test]
fn a_tampered_candidate_or_a_bad_write_stops_the_switch() {
    let t = transaction("prepared", b"target", Some(b"auth"));
    assert_eq!(
        message(switch_step(&t, false, SwitchProgress::ConfigCandidateRead { result: Ok(b"other".to_vec()) })),
        "配置候选文件完整性校验失败"
    );
    assert_eq!(
        message(switch_step(&t, false, SwitchProgress::ConfigCandidateRead { result: Err("gone".into()) })),
        "无法读取配置候选文件: gone"
    );
    assert_eq!(
        message(switch_step(
            &t,
            false,
            SwitchProgress::ConfigRead { check: ConfigCheck::Written, content: Some(b"other".to_vec()) }
        )),
        "config.toml 写入后校验失败"
    );
    assert_eq!(
        message(switch_step(&t, false, SwitchProgress::ConfigRead { check: ConfigCheck::Written, content: None })),
        "config.toml 重新读取失败或文件不存在"
    );
    let error = AppError::Message("disk full".into());
    assert_eq!(
        switch_step(&t, false, SwitchProgress::ConfigWritten { result: Err(error.clone()) }),
        SwitchAction::Failed(error)
    );
    assert_eq!(
        message(switch_step(&t, false, SwitchProgress::AuthCandidateRead { result: Ok(b"x".to_vec()) })),
        "认证候选文件完整性校验失败"
    );
}

#[test]
fn resuming_a_prepared_switch_keeps_a_config_changed_by_someone_else() {
    let t = transaction("prepared", b"target", Some(b"auth"));
    assert_eq!(switch_step(&t, true, SwitchProgress::Resume), SwitchAction::ReadConfig { check: ConfigCheck::Prepared });
    let next = switch_step(
        &t,
        true,
        SwitchProgress::ConfigRead { check: ConfigCheck::Prepared, content: Some(b"third party".to_vec()) },
    );
    assert_eq!(next, SwitchAction::ReadConfigBackup { current: Some(digest(b"third party")) });
    assert_eq!(
        message(switch_step(
            &t,
            true,
            SwitchProgress::ConfigBackupRead {
                current: Some(digest(b"third party")),
                content: Some(b"original".to_vec())
            }
        )),
        "config.toml 在事务恢复前已被其他内容修改，不能覆盖"
    );
    assert_eq!(
        switch_step(
            &t,
            true,
            SwitchProgress::ConfigBackupRead { current: Some(digest(b"original")), content: Some(b"original".to_vec()) }
        ),
        SwitchAction::ReadConfigCandidate
    );
    assert_eq!(
        switch_step(
            &t,
            true,
            SwitchProgress::ConfigBackupRead { current: Some(digest(b"target")), content: Some(b"original".to_vec()) }
        ),
        SwitchAction::ReadConfig { check: ConfigCheck::Written }
    );
}

#[test]
fn resuming_checks_auth_before_touching_it() {
    let t = transaction("config_committed", b"target", Some(b"auth"));
    assert_eq!(switch_step(&t, true, SwitchProgress::Resume), SwitchAction::ReadConfig { check: ConfigCheck::Committed });
    assert_eq!(
        switch_step(&t, true, SwitchProgress::ConfigRead { check: ConfigCheck::Committed, content: Some(b"target".to_vec()) }),
        SwitchAction::ReadAuth { check: AuthCheck::Untouched }
    );
    assert_eq!(
        switch_step(&t, true, SwitchProgress::ConfigCommittedRecorded { result: Ok(()) }),
        SwitchAction::ReadAuth { check: AuthCheck::Untouched }
    );
    assert_eq!(
        message(switch_step(
            &t,
            true,
            SwitchProgress::AuthBackupRead { current: Some(digest(b"someone else")), content: Some(b"before".to_vec()) }
        )),
        "auth.json 在事务恢复前已被其他内容修改，不能覆盖"
    );
    assert_eq!(
        switch_step(
            &t,
            true,
            SwitchProgress::AuthBackupRead { current: Some(digest(b"auth")), content: Some(b"before".to_vec()) }
        ),
        SwitchAction::ReadAuthCandidate
    );
    let later = transaction("validated", b"target", Some(b"auth"));
    assert_eq!(switch_step(&later, true, SwitchProgress::Resume), SwitchAction::ReadConfig { check: ConfigCheck::Validate });
    let odd = transaction("halfway", b"target", None);
    assert_eq!(message(switch_step(&odd, true, SwitchProgress::Resume)), "无法识别的供应商切换事务阶段: halfway");
}

#[test]
fn a_switch_without_an_auth_target_removes_the_file() {
    let t = transaction("prepared", b"target", None);
    assert_eq!(
        switch_step(&t, false, SwitchProgress::ConfigCommittedRecorded { result: Ok(()) }),
        SwitchAction::RemoveAuth
    );
    assert_eq!(
        switch_step(&t, false, SwitchProgress::AuthRemoved { result: Ok(()) }),
        SwitchAction::RecordAuthCommitted
    );
    assert_eq!(
        switch_step(&t, false, SwitchProgress::ConfigRead { check: ConfigCheck::Validate, content: Some(b"target".to_vec()) }),
        SwitchAction::CheckAuthAbsent
    );
    assert_eq!(
        message(switch_step(&t, false, SwitchProgress::AuthPresence { present: true })),
        "auth.json 应已删除，但重新读取时仍然存在"
    );
    assert_eq!(switch_step(&t, false, SwitchProgress::AuthPresence { present: false }), SwitchAction::RecordValidated);
    let mut missing = transaction("prepared", b"target", Some(b"auth"));
    missing.expected_auth_sha256 = None;
    assert_eq!(
        message(switch_step(&missing, false, SwitchProgress::ConfigCommittedRecorded { result: Ok(()) })),
        "认证候选文件缺少期望哈希，无法继续切换"
    );
}

#[test]
fn rollback_restores_what_existed_and_removes_what_did_not() {
    let mut t = transaction("prepared", b"target", None);
    t.auth_existed = false;
    assert_eq!(
        rollback_steps(&t),
        vec![
            RollbackStep::Restore {
                file: HomeFile::Config,
                backup_path: "/data/transactions/t1/config.before".into()
            },
            RollbackStep::Remove { file: HomeFile::Auth },
        ]
    );
    assert_eq!(
        lost_backup_error(HomeFile::Config).message(),
        "事务中的 config.toml 原始文件已丢失，无法回滚"
    );
    assert_eq!(lost_backup_error(HomeFile::Auth).message(), "事务中的 auth.json 原始文件已丢失，无法回滚");
}

#[test]
fn the_official_target_uses_an_intact_copy_only() {
    let copy = b"{\"tokens\":{}}".to_vec();
    let row = OfficialSnapshotRow {
        profile_id: "p1".into(),
        snapshot_path: "/data/auth-snapshots/x/auth.json".into(),
        source_sha256: digest(&copy),
        source_modified_at: None,
        captured_at: "2024-01-01T00:00:00Z".into(),
    };
    assert_eq!(official_auth_target(&Some(row.clone()), Some(copy.clone())).unwrap(), Some(copy.clone()));
    assert_eq!(official_auth_target(&Some(row.clone()), None).unwrap(), None);
    assert_eq!(official_auth_target(&None, Some(copy)).unwrap(), None);
    assert_eq!(
        official_auth_target(&Some(row), Some(b"changed".to_vec())).unwrap_err().message(),
        "官方凭据快照完整性校验失败，已中止切换"
    );
    assert!(is_official("OpenAI"));
    assert!(!is_official("relay"));
}

#[test]
fn an_api_key_login_is_pretty_printed_json() {
    for key in ["sk-123", "quote\"back\\slash\nline", "中文"] {
        let mut map = serde_json::Map::new();
        map.insert("OPENAI_API_KEY".to_string(), serde_json::Value::String(key.to_string()));
        let expected = serde_json::to_vec_pretty(&serde_json::Value::Object(map)).unwrap();
        assert_eq!(api_key_auth(key).unwrap(), expected);
    }
    assert_eq!(
        String::from_utf8(api_key_auth("k").unwrap()).unwrap(),
        "{\n  \"OPENAI_API_KEY\": \"k\"\n}"
    );
    assert_eq!(
        String::from_utf8(api_key_auth("a\"b\\c\u{1}\u{8}\t\u{1f}é/").unwrap()).unwrap(),
        "{\n  \"OPENAI_API_KEY\": \"a\\\"b\\\\c\\u0001\\b\\t\\u001fé/\"\n}"
    );
}

#[test]
fn a_switch_goes_to_the_official_login_or_to_saved_relay_settings() {
    let row = codex_local_sync::store::ProviderConfigRow {
        profile_id: "p".into(),
        provider_id: "relay".into(),
        base_url: "https://relay.example/v1".into(),
        requires_openai_auth: true,
        api_key: "sk".into(),
        managed_by_tool: true,
        created_at: String::new(),
        updated_at: String::new(),
    };
    assert!(matches!(switch_target_of("OpenAI", Some(row.clone())), Ok(SwitchTarget::Official)));
    match switch_target_of("relay", Some(row)) {
        Ok(SwitchTarget::Relay(r)) => assert_eq!(r.api_key, "sk"),
        _ => panic!("relay settings are used"),
    }
    assert_eq!(
        switch_target_of("relay", None).err().unwrap().message(),
        "该供应商尚未配置 API 密钥，请先完成配置"
    );
}
