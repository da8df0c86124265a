use codex_local_sync::mcp::{architecture_for, needs_install, resource_target, runtime_directory};
use codex_local_sync::toml_doc::provider_is_eligible;
use codex_local_sync::platform::Os;

#[test]
fn architecture_mapping_never_crosses_operating_systems() {
    for arch in ["amd64", "arm64"] {
        let windows = resource_target("windows", arch).unwrap();
        assert!(windows.resource_name.starts_with("image-mcp-windows-"));
        let mac = resource_target("macos", arch).unwrap();
        assert!(mac.resource_name.starts_with("image-mcp-darwin-"));
    }
    assert!(resource_target("linux", "amd64").is_err());
    assert!(resource_target("windows", "x86").is_err());
}

#[test]
fn resource_names_are_exact() {
    let t = resource_target("windows", "arm64").unwrap();
    assert_eq!(t.resource_name, "image-mcp-windows-arm64.exe");
    assert_eq!(t.destination_name, "image-mcp.exe");
    let t = resource_target("macos", "amd64").unwrap();
    assert_eq!(t.resource_name, "image-mcp-darwin-amd64");
    assert_eq!(t.destination_name, "image-mcp");
}

#[test]
fn runtime_directory_rejects_unsafe_profile_ids() {
    for id in ["", "..", "../outside", "a/b", "a\\b", "C:"] {
        assert!(runtime_directory("/data", id, Os::Windows).is_err());
    }
    assert!(runtime_directory("/data", "profile", Os::MacOs).is_ok());
}

#[test]
fn architectures_and_installs() {
    assert_eq!(architecture_for("x86_64", Os::Windows), "amd64");
    assert_eq!(architecture_for("aarch64", Os::MacOs), "arm64");
    let bytes = vec![1u8, 2, 3];
    assert!(needs_install(None, &bytes));
    assert!(!needs_install(Some(&bytes), &bytes));
    assert!(needs_install(Some(&vec![1u8]), &bytes));
}

#[test]
fn eligibility_uses_only_the_applied_provider_and_literal_case_insensitive_match() {
    for (provider, url, expected) in [
        ("one", "https://ai.711ev.com/v1", true),
        ("two", "https://AI.711EV.COM/other", true),
        ("custom", "https://proxy.example/ai.711ev.com", true),
        ("one", "https://example.com/v1", false),
        ("one", "", false),
        ("openai", "https://ai.711ev.com/v1", false),
        ("OpenAI", "https://ai.711ev.com/v1", false),
    ] {
        let config = format!("model_provider = '{provider}'\n[model_providers.{provider}]\nbase_url = '{url}'\n[model_providers.unselected]\nbase_url = 'https://ai.711ev.com/v1'\n");
        assert_eq!(provider_is_eligible(config.as_bytes()).unwrap(), expected);
    }
    assert!(!provider_is_eligible(b"model_provider = 'missing'\n").unwrap());
    assert!(!provider_is_eligible(b"").unwrap());
    assert!(provider_is_eligible(b"not toml").is_err());
}
