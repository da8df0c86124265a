use codex_local_sync::discovery::DiscoveredInstance;
use codex_local_sync::models::{ProfileKind, ProfileMode};
use codex_local_sync::payload::JsonValue;
use codex_local_sync::profiles::{from_discovery, read_provider_main, read_provider_named, ProviderRead};

fn text(s: &str) -> JsonValue {
    JsonValue::Text(s.to_string())
}

fn obj(entries: Vec<(&str, JsonValue)>) -> JsonValue {
    JsonValue::Object(entries.into_iter().map(|(k, v)| (k.to_string(), v)).collect())
}

#[test]
fn selected_named_profile_controls_current_provider() {
    let main = obj(vec![
        ("model_provider", text("openai")),
        ("profile", text("work")),
        ("profiles", obj(vec![("work", obj(vec![("model_provider", text("inline"))]))])),
    ]);
    let (profile, otherwise) = match read_provider_main(&Some(main), "fallback") {
        ProviderRead::ReadNamed { profile, otherwise } => (profile, otherwise),
        ProviderRead::Done(p) => panic!("expected the named file to be read, got {p}"),
    };
    assert_eq!(profile, "work");
    assert_eq!(otherwise, "inline");
    let named = obj(vec![("model_provider", text("relay"))]);
    assert_eq!(read_provider_named(&Some(named), otherwise.clone()), "relay");
    assert_eq!(read_provider_named(&None, otherwise), "inline");
}

#[test]
fn provider_without_a_profile_or_readable_config() {
    match read_provider_main(&None, "fallback") {
        ProviderRead::Done(p) => assert_eq!(p, "fallback"),
        _ => panic!("expected the fallback"),
    }
    match read_provider_main(&Some(obj(vec![("model_provider", text("  "))])), "fallback") {
        ProviderRead::Done(p) => assert_eq!(p, "fallback"),
        _ => panic!("expected the fallback"),
    }
    match read_provider_main(
        &Some(obj(vec![("model_provider", text("relay")), ("profile", text("a/b"))])),
        "fallback",
    ) {
        ProviderRead::Done(p) => assert_eq!(p, "relay"),
        _ => panic!("an invalid profile name has no file"),
    }
}

#[test]
fn discovered_homes_become_external_profiles() {
    let instance = DiscoveredInstance {
        home: "/h".into(),
        name: "home".into(),
        kind: ProfileKind::CustomApi,
        provider_id: "relay".into(),
        discovery_source: "environment".into(),
        providers: Vec::new(),
        config_profiles: Vec::new(),
        app_path: None,
    };
    let p = from_discovery(instance, "id-1".into(), "now".into());
    assert_eq!(p.id, "id-1");
    assert_eq!(p.mode, ProfileMode::External);
    assert_eq!(p.codex_home, "/h");
    assert_eq!(p.created_at, "now");
    assert_eq!(p.updated_at, "now");
}
