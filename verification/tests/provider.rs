use codex_local_sync::provider::poll_official_snapshots;
use codex_local_sync::platform::Os;
use codex_local_sync::provider::{
    auth_event_home, check_auth_store, digest, ensure_auth_is_original_or_target, mask_key,
    normalize_url, path_hash, validate_provider_id,
};

#[test]
fn digest_of_abc_is_the_known_sha256() {
    assert_eq!(
        digest(b"abc"),
        "ba7816bf8f01cfea414140de5dae2223b00361a396177a9cb410ff61f20015ad"
    );
    assert_eq!(path_hash("abc"), digest(b"abc"));
    assert_ne!(digest(b"abd"), digest(b"abc"));
}

#[test]
fn provider_ids_are_validated() {
    assert!(validate_provider_id("relay-1.a_b").is_ok());
    assert!(validate_provider_id("").is_err());
    assert!(validate_provider_id("-relay").is_err());
    assert!(validate_provider_id("a/b").is_err());
    assert!(validate_provider_id(&"a".repeat(65)).is_err());
}

#[test]
fn urls_are_normalized_and_must_use_https() {
    assert_eq!(
        normalize_url("  https://relay.example/v1/?x=1#f ").unwrap(),
        "https://relay.example/v1"
    );
    assert!(normalize_url("http://relay.example").is_err());
    assert!(normalize_url("https://").is_err());
    assert!(normalize_url("https:///").is_err());
    assert!(normalize_url(" https://?x=1").is_err());
    assert_eq!(normalize_url(" https://relay.example/v1//?token=x#f ").unwrap(), "https://relay.example/v1");
    assert_eq!(normalize_url("https://a").unwrap(), "https://a");
}

#[test]
fn keys_are_masked() {
    assert_eq!(mask_key("sk-1234567890"), "sk-1...7890");
    assert_eq!(mask_key("short"), "••••");
}

#[test]
fn only_file_auth_store_is_supported() {
    assert!(check_auth_store(Some("file")).is_ok());
    assert!(check_auth_store(Some("keyring")).is_err());
    assert!(check_auth_store(None).is_err());
}

#[test]
fn auth_must_be_original_or_target() {
    let a = Some("a".to_string());
    let b = Some("b".to_string());
    let c = Some("c".to_string());
    assert!(ensure_auth_is_original_or_target(&a, &a, &b).is_ok());
    assert!(ensure_auth_is_original_or_target(&b, &a, &b).is_ok());
    assert!(ensure_auth_is_original_or_target(&c, &a, &b).is_err());
    assert!(ensure_auth_is_original_or_target(&None, &None, &b).is_ok());
}

#[test]
fn auth_events_name_their_home() {
    assert_eq!(
        auth_event_home("/home/a/.codex/AUTH.json", Os::Other),
        Some("/home/a/.codex".to_string())
    );
    assert_eq!(auth_event_home("/home/a/.codex/config.toml", Os::Other), None);
}

#[test]
fn polls_only_homes_with_file_credentials() {
    let stores = vec![Some("file".to_string()), None, Some("keyring".to_string()), Some("file".to_string())];
    assert_eq!(poll_official_snapshots(&stores), vec![0, 3]);
}
