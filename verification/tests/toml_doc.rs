use codex_local_sync::config_edit::{ConfigEdit, EntryKind, ScalarFact};
use codex_local_sync::error::AppError;
use codex_local_sync::store::ProviderConfigRow;
use codex_local_sync::toml_doc::{
    apply_config_edits, fill_relay_defaults, provider_section_facts, register_image_server,
    registered_image_command, remove_image_configuration, set_top_level_provider, upsert_provider_section,
};
use toml_edit::DocumentMut;

fn provider_row(provider_id: &str, base_url: &str, api_key: &str) -> ProviderConfigRow {
    ProviderConfigRow {
        profile_id: "profile".into(),
        provider_id: provider_id.into(),
        base_url: base_url.into(),
        requires_openai_auth: true,
        api_key: api_key.into(),
        managed_by_tool: true,
        created_at: String::new(),
        updated_at: String::new(),
    }
}

fn keys(k: &[&str]) -> Vec<String> {
    k.iter().map(|s| s.to_string()).collect()
}

fn message(error: AppError) -> String {
    match error {
        AppError::Message(m) => m,
        other => panic!("unexpected error kind: {other:?}"),
    }
}

#[test]
fn updates_primary_provider_without_removing_unknown_fields() {
    let content = "# keep\nmodel_provider = \"openai\"\n\n[model_providers.foo]\nbase_url = \"https://old\"\nunknown = 1\n\n[mcp]\n";
    let result = upsert_provider_section(
        content,
        "foo",
        &ProviderConfigRow {
            profile_id: "profile".into(),
            provider_id: "foo".into(),
            base_url: "https://new".into(),
            requires_openai_auth: true,
            api_key: "secret".into(),
            managed_by_tool: true,
            created_at: String::new(),
            updated_at: String::new(),
        },
        false,
    )
    .unwrap();
    assert!(result.contains("# keep"));
    assert!(result.contains("unknown = 1"));
    assert!(result.contains("name = \"foo\""));
    assert!(result.contains("base_url = \"https://new\""));
    assert!(result.contains("[mcp]"));
}

#[test]
fn cleanup_preserves_other_servers_and_removes_an_empty_server_table() {
    let config = b"# keep\n[mcp_servers.generate_image]\ncommand = 'image'\n[mcp_servers.other]\ncommand = 'other'\n";
    let after = remove_image_configuration(config).unwrap();
    let text = std::str::from_utf8(&after).unwrap();
    assert!(text.contains("# keep\n"));
    let document = text.parse::<DocumentMut>().unwrap();
    assert!(document["mcp_servers"].get("generate_image").is_none());
    assert_eq!(document["mcp_servers"]["other"]["command"].as_str(), Some("other"));
    assert_eq!(remove_image_configuration(&after).unwrap(), after);
    for config in [
        "[mcp_servers.generate_image]\ncommand = 'image'\n",
        "mcp_servers = { generate_image = { command = 'image' } }\n",
    ] {
        let after = remove_image_configuration(config.as_bytes()).unwrap();
        assert!(!std::str::from_utf8(&after).unwrap().contains("mcp_servers"));
    }
}

#[test]
fn a_new_provider_section_is_written_with_its_tables() {
    let row = provider_row("relay", "https://relay.example/v1", "sk-1");
    let written = upsert_provider_section("model_provider = \"openai\"\n", "relay", &row, true).unwrap();
    let document = written.parse::<DocumentMut>().unwrap();
    let section = &document["model_providers"]["relay"];
    assert_eq!(section["name"].as_str(), Some("relay"));
    assert_eq!(section["base_url"].as_str(), Some("https://relay.example/v1"));
    assert_eq!(section["wire_api"].as_str(), Some("responses"));
    assert_eq!(section["requires_openai_auth"].as_bool(), Some(true));
    assert_eq!(section["experimental_bearer_token"].as_str(), Some("sk-1"));
    assert!(written.starts_with("model_provider = \"openai\"\n"));
    assert!(written.contains("[model_providers.relay]"));
    let without_key = upsert_provider_section("", "relay", &row, false).unwrap();
    assert!(!without_key.contains("experimental_bearer_token"));
    assert!(without_key.contains("[model_providers]"));
    // Writing the same section again changes nothing.
    assert_eq!(upsert_provider_section(&written, "relay", &row, true).unwrap(), written);
}

#[test]
fn the_facts_of_a_provider_section_are_read_from_the_text() {
    let text = "[model_providers.relay]\nname = \"relay\"\nrequires_openai_auth = false\n";
    let facts = provider_section_facts(text, "relay");
    assert_eq!(facts.providers, EntryKind::Table);
    assert_eq!(facts.entry, EntryKind::Table);
    assert_eq!(facts.name, ScalarFact::Text("relay".into()));
    assert_eq!(facts.requires_openai_auth, ScalarFact::Flag(false));
    assert_eq!(facts.base_url, ScalarFact::Missing);
    let inline = provider_section_facts("model_providers = { relay = 1 }\n", "relay");
    assert_eq!(inline.providers, EntryKind::InlineTable);
    assert_eq!(inline.entry, EntryKind::Absent);
    let other = provider_section_facts("[model_providers]\nrelay = 1\n", "relay");
    assert_eq!(other.entry, EntryKind::Other);
}

#[test]
fn sections_of_the_wrong_shape_and_broken_text_are_refused() {
    let row = provider_row("relay", "https://relay.example/v1", "sk-1");
    let err = upsert_provider_section("model_providers = 1\n", "relay", &row, true).unwrap_err();
    assert_eq!(message(err), "config.toml 中 model_providers 不是有效配置表");
    let err = upsert_provider_section("[model_providers]\nrelay = 1\n", "relay", &row, true).unwrap_err();
    assert_eq!(message(err), "config.toml 中 model_providers.relay 不是有效配置表");
    let err = upsert_provider_section("not toml [", "relay", &row, true).unwrap_err();
    assert!(message(err).starts_with("config.toml 解析失败: "));
    let err = set_top_level_provider("= broken", "relay").unwrap_err();
    assert!(message(err).starts_with("config.toml 解析失败: "));
}

#[test]
fn the_provider_in_use_is_set_in_place() {
    assert_eq!(
        set_top_level_provider("model_provider = \"openai\"\n", "relay").unwrap(),
        "model_provider = \"relay\"\n"
    );
    let kept = "# mine\nmodel_provider = \"relay\" # chosen\n";
    assert_eq!(set_top_level_provider(kept, "relay").unwrap(), kept);
    let blank = set_top_level_provider("  \n", "relay").unwrap();
    assert_eq!(blank, "model_provider = \"relay\"\n");
    let commented = set_top_level_provider("model_provider = \"openai\" # chosen\n", "relay").unwrap();
    assert_eq!(commented, "model_provider = \"relay\" # chosen\n");
}

#[test]
fn relay_defaults_are_added_only_where_missing() {
    let filled = fill_relay_defaults("model_provider = \"relay\"\n").unwrap();
    let document = filled.parse::<DocumentMut>().unwrap();
    assert_eq!(document["disable_response_storage"].as_bool(), Some(true));
    assert_eq!(document["service_tier"].as_str(), Some("flex"));
    assert!(filled.starts_with("model_provider = \"relay\"\n"));
    let chosen = "service_tier = \"fast\"\ndisable_response_storage = false\n";
    assert_eq!(fill_relay_defaults(chosen).unwrap(), chosen);
    let half = fill_relay_defaults("service_tier = \"fast\"\n").unwrap();
    let document = half.parse::<DocumentMut>().unwrap();
    assert_eq!(document["service_tier"].as_str(), Some("fast"));
    assert_eq!(document["disable_response_storage"].as_bool(), Some(true));
}

#[test]
fn registering_the_image_server_keeps_other_servers_and_is_idempotent() {
    let config = "# keep\nmodel_provider = \"openai\"\n[mcp_servers.other]\ncommand = \"keep\"\n";
    let first = register_image_server(config, "/opt/image-mcp").unwrap();
    assert!(first.starts_with("# keep\n"));
    assert_eq!(register_image_server(&first, "/opt/image-mcp").unwrap(), first);
    let document = first.parse::<DocumentMut>().unwrap();
    assert_eq!(document["mcp_servers"]["other"]["command"].as_str(), Some("keep"));
    let image = &document["mcp_servers"]["generate_image"];
    assert_eq!(image["command"].as_str(), Some("/opt/image-mcp"));
    assert_eq!(image["args"].as_array().unwrap().len(), 0);
    assert_eq!(image["startup_timeout_sec"].as_integer(), Some(30));
    assert_eq!(image["tool_timeout_sec"].as_integer(), Some(120));
    assert!(!first.contains("[mcp_servers]\n"));
    let fresh = register_image_server("", "/opt/image-mcp").unwrap();
    assert!(fresh.contains("[mcp_servers.generate_image]"));
    assert!(!fresh.contains("[mcp_servers]\n"));
    assert_eq!(
        register_image_server("mcp_servers = 1\n", "x").unwrap_err(),
        "config.toml 中 mcp_servers 不是有效配置表"
    );
    assert_eq!(
        register_image_server("[mcp_servers]\ngenerate_image = 1\n", "x").unwrap_err(),
        "config.toml 中 generate_image 不是有效配置表"
    );
    assert!(register_image_server("[broken", "x").unwrap_err().starts_with("Codex 配置格式错误："));
}

#[test]
fn removing_the_image_server_refuses_bad_input_and_keeps_its_comments() {
    assert_eq!(
        remove_image_configuration(b"mcp_servers = 1\n").unwrap_err(),
        "mcp_servers 不是有效配置表"
    );
    assert_eq!(
        remove_image_configuration(b"\xff").unwrap_err(),
        "invalid utf-8 sequence of 1 bytes from index 0"
    );
    assert!(remove_image_configuration(b"[broken").is_err());
    let untouched = b"model_provider = \"openai\"\n";
    assert_eq!(remove_image_configuration(untouched).unwrap(), untouched.to_vec());
    let config = b"a = 1\n# the image server\n[mcp_servers.generate_image]\ncommand = 'image'\n";
    let after = String::from_utf8(remove_image_configuration(config).unwrap()).unwrap();
    assert!(after.starts_with("a = 1\n"));
    assert!(after.contains("# the image server\n"));
    assert!(!after.contains("generate_image"));
}

#[test]
fn edits_apply_in_order_and_refuse_unknown_places() {
    let edits = vec![
        ConfigEdit::AddTable { path: vec![], key: "t".into() },
        ConfigEdit::SetText { path: vec![], key: "a".into(), value: "x".into() },
    ];
    let applied = apply_config_edits("", &edits).unwrap();
    let document = applied.parse::<DocumentMut>().unwrap();
    assert_eq!(document["a"].as_str(), Some("x"));
    assert!(document["t"].is_table());
    let deep = vec![ConfigEdit::SetText { path: keys(&["a", "b", "c"]), key: "k".into(), value: "v".into() }];
    assert_eq!(apply_config_edits("", &deep), None);
    assert_eq!(apply_config_edits("[broken", &edits), None);
    assert_eq!(apply_config_edits("a = 1\n", &vec![]), Some("a = 1\n".to_string()));
    let numbers = vec![
        ConfigEdit::SetNumber { path: keys(&["x", "y"]), key: "n".into(), value: 7 },
        ConfigEdit::SetFlag { path: keys(&["x", "y"]), key: "f".into(), value: false },
        ConfigEdit::SetEmptyList { path: keys(&["x", "y"]), key: "l".into() },
    ];
    let applied = apply_config_edits("", &numbers).unwrap();
    let document = applied.parse::<DocumentMut>().unwrap();
    assert_eq!(document["x"]["y"]["n"].as_integer(), Some(7));
    assert_eq!(document["x"]["y"]["f"].as_bool(), Some(false));
    assert_eq!(document["x"]["y"]["l"].as_array().unwrap().len(), 0);
    let table_in_table = vec![
        ConfigEdit::AddTable { path: vec![], key: "p".into() },
        ConfigEdit::AddTable { path: keys(&["p"]), key: "q".into() },
        ConfigEdit::SetFlag { path: vec![], key: "top".into(), value: true },
    ];
    let applied = apply_config_edits("", &table_in_table).unwrap();
    let document = applied.parse::<DocumentMut>().unwrap();
    assert!(document["p"]["q"].is_table());
    assert_eq!(document["top"].as_bool(), Some(true));
}

#[test]
fn the_registered_command_is_read_from_either_table_form() {
    assert_eq!(
        registered_image_command("[mcp_servers.generate_image]\ncommand = '/opt/a'\n").unwrap(),
        Some("/opt/a".to_string())
    );
    assert_eq!(
        registered_image_command("mcp_servers = { generate_image = { command = '/opt/b' } }\n").unwrap(),
        Some("/opt/b".to_string())
    );
    assert_eq!(registered_image_command("model_provider = 'openai'\n").unwrap(), None);
    assert_eq!(registered_image_command("[mcp_servers.generate_image]\ncommand = 1\n").unwrap(), None);
    assert!(registered_image_command("[broken").unwrap_err().starts_with("Codex 配置格式错误："));
}
