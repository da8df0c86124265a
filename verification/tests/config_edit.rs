use codex_local_sync::agents::{ensure_image_agents_rules, rules_in_place};
use codex_local_sync::config_edit::{
    relay_default_edits,
    image_removal, image_server_edits, kept_comment_text, parses_as_empty, provider_section_edits,
    save_writes_config, top_level_provider_edit, trailing_with_comments, ConfigEdit, EntryKind,
    ImageRemoval, ImageRemovalFacts, ImageServerFacts, ProviderSectionFacts, ScalarFact,
};
use codex_local_sync::platform::Os;
use codex_local_sync::store::ProviderConfigRow;

fn row() -> ProviderConfigRow {
    ProviderConfigRow {
        profile_id: "p1".into(),
        provider_id: "relay".into(),
        base_url: "https://relay.example/v1".into(),
        requires_openai_auth: true,
        api_key: "sk-1".into(),
        managed_by_tool: true,
        created_at: "2024-01-01T00:00:00Z".into(),
        updated_at: "2024-01-01T00:00:00Z".into(),
    }
}

fn path(keys: &[&str]) -> Vec<String> {
    keys.iter().map(|k| k.to_string()).collect()
}

fn text(keys: &[&str], key: &str, value: &str) -> ConfigEdit {
    ConfigEdit::SetText { path: path(keys), key: key.into(), value: value.into() }
}

fn facts(providers: EntryKind, entry: EntryKind) -> ProviderSectionFacts {
    ProviderSectionFacts {
        providers,
        entry,
        name: ScalarFact::Missing,
        base_url: ScalarFact::Missing,
        wire_api: ScalarFact::Missing,
        requires_openai_auth: ScalarFact::Missing,
        bearer_token: ScalarFact::Missing,
    }
}

#[test]
fn a_new_section_is_written_in_full() {
    let at = ["model_providers", "relay"];
    let edits = provider_section_edits(&facts(EntryKind::Absent, EntryKind::Absent), "relay", &row(), true).unwrap();
    assert_eq!(
        edits,
        vec![
            ConfigEdit::AddTable { path: vec![], key: "model_providers".into() },
            ConfigEdit::AddTable { path: path(&["model_providers"]), key: "relay".into() },
            text(&at, "name", "relay"),
            text(&at, "base_url", "https://relay.example/v1"),
            text(&at, "wire_api", "responses"),
            ConfigEdit::SetFlag { path: path(&at), key: "requires_openai_auth".into(), value: true },
            text(&at, "experimental_bearer_token", "sk-1"),
        ]
    );
    let without_key = provider_section_edits(&facts(EntryKind::Table, EntryKind::Absent), "relay", &row(), false).unwrap();
    assert_eq!(without_key.len(), 5);
    assert!(matches!(&without_key[0], ConfigEdit::AddTable { key, .. } if key == "relay"));
}

#[test]
fn values_already_in_place_are_left_alone() {
    let mut f = facts(EntryKind::Table, EntryKind::Table);
    f.name = ScalarFact::Text("relay".into());
    f.base_url = ScalarFact::Text("https://old.example".into());
    f.wire_api = ScalarFact::Text("responses".into());
    f.requires_openai_auth = ScalarFact::Flag(true);
    f.bearer_token = ScalarFact::Text("sk-1".into());
    let edits = provider_section_edits(&f, "relay", &row(), true).unwrap();
    assert_eq!(edits, vec![text(&["model_providers", "relay"], "base_url", "https://relay.example/v1")]);
    f.requires_openai_auth = ScalarFact::Text("true".into());
    let edits = provider_section_edits(&f, "relay", &row(), true).unwrap();
    assert_eq!(edits.len(), 2);
}

#[test]
fn sections_that_are_not_tables_are_refused() {
    assert_eq!(
        provider_section_edits(&facts(EntryKind::InlineTable, EntryKind::Absent), "relay", &row(), true)
            .unwrap_err()
            .message(),
        "config.toml 中 model_providers 不是有效配置表"
    );
    assert_eq!(
        provider_section_edits(&facts(EntryKind::Table, EntryKind::Other), "relay", &row(), true)
            .unwrap_err()
            .message(),
        "config.toml 中 model_providers.relay 不是有效配置表"
    );
}

#[test]
fn the_provider_in_use_is_set_only_when_it_differs() {
    assert_eq!(top_level_provider_edit(&ScalarFact::Text("relay".into()), "relay"), None);
    assert_eq!(
        top_level_provider_edit(&ScalarFact::Text("openai".into()), "relay"),
        Some(text(&[], "model_provider", "relay"))
    );
    assert_eq!(top_level_provider_edit(&ScalarFact::Missing, "openai"), Some(text(&[], "model_provider", "openai")));
    assert!(!save_writes_config(&Some("Relay".into()), "relay"));
    assert!(save_writes_config(&Some("openai".into()), "relay"));
    assert!(save_writes_config(&None, "relay"));
}

#[test]
fn the_image_server_is_registered_with_its_limits() {
    let at = ["mcp_servers", "generate_image"];
    let fresh = ImageServerFacts { servers: EntryKind::Absent, image: EntryKind::Absent, command: ScalarFact::Missing };
    assert_eq!(
        image_server_edits(&fresh, "/opt/tool").unwrap(),
        vec![
            text(&at, "command", "/opt/tool"),
            ConfigEdit::SetEmptyList { path: path(&at), key: "args".into() },
            ConfigEdit::SetNumber { path: path(&at), key: "startup_timeout_sec".into(), value: 30 },
            ConfigEdit::SetNumber { path: path(&at), key: "tool_timeout_sec".into(), value: 120 },
        ]
    );
    let present = ImageServerFacts {
        servers: EntryKind::Table,
        image: EntryKind::Table,
        command: ScalarFact::Text("/opt/tool".into()),
    };
    assert_eq!(image_server_edits(&present, "/opt/tool").unwrap().len(), 3);
    let inline = ImageServerFacts { servers: EntryKind::InlineTable, image: EntryKind::Absent, command: ScalarFact::Missing };
    assert_eq!(image_server_edits(&inline, "x").unwrap_err(), "config.toml 中 mcp_servers 不是有效配置表");
    let odd = ImageServerFacts { servers: EntryKind::Table, image: EntryKind::Other, command: ScalarFact::Missing };
    assert_eq!(image_server_edits(&odd, "x").unwrap_err(), "config.toml 中 generate_image 不是有效配置表");
}

#[test]
fn removing_the_image_server_keeps_other_servers_and_their_comments() {
    assert_eq!(
        image_removal(&ImageRemovalFacts { servers: EntryKind::Absent, has_image: false, has_others: false }),
        Ok(ImageRemoval { remove_image: false, remove_servers: false })
    );
    assert_eq!(
        image_removal(&ImageRemovalFacts { servers: EntryKind::Table, has_image: true, has_others: true }),
        Ok(ImageRemoval { remove_image: true, remove_servers: false })
    );
    assert_eq!(
        image_removal(&ImageRemovalFacts { servers: EntryKind::InlineTable, has_image: true, has_others: false }),
        Ok(ImageRemoval { remove_image: true, remove_servers: true })
    );
    assert_eq!(
        image_removal(&ImageRemovalFacts { servers: EntryKind::Other, has_image: false, has_others: false }),
        Err("mcp_servers 不是有效配置表".to_string())
    );
    let pieces = vec!["\n# image server".to_string(), " ".to_string(), "# keep\n".to_string(), String::new()];
    let comments = kept_comment_text(&pieces);
    assert_eq!(comments, "\n# image server\n# keep\n");
    assert_eq!(trailing_with_comments(&comments, "\n"), Some("\n\n# image server\n# keep\n\n".to_string()));
    assert_eq!(trailing_with_comments("", "\n"), None);
}

#[test]
fn blank_text_is_an_empty_document_and_rules_are_checked_in_place() {
    assert!(parses_as_empty(" \n\t"));
    assert!(parses_as_empty(""));
    assert!(!parses_as_empty("a = 1"));
    let ensured = ensure_image_agents_rules(b"# Notes\n", Os::Other).unwrap();
    assert_eq!(rules_in_place(true, &ensured, Os::Other), Ok(true));
    assert_eq!(rules_in_place(true, b"# Notes\n", Os::Other), Ok(false));
    assert_eq!(rules_in_place(false, &ensured, Os::Other), Ok(false));
}

#[test]
fn a_relay_fills_in_missing_storage_and_tier_settings_only() {
    let all = relay_default_edits(EntryKind::Absent, EntryKind::Absent);
    assert_eq!(
        all,
        vec![
            ConfigEdit::SetFlag { path: vec![], key: "disable_response_storage".into(), value: true },
            ConfigEdit::SetText { path: vec![], key: "service_tier".into(), value: "flex".into() },
        ]
    );
    assert_eq!(
        relay_default_edits(EntryKind::Other, EntryKind::Absent),
        vec![ConfigEdit::SetText { path: vec![], key: "service_tier".into(), value: "flex".into() }]
    );
    assert!(relay_default_edits(EntryKind::Other, EntryKind::Table).is_empty());
}
