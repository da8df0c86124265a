use codex_local_sync::rollout::check_replica_lines;
use codex_local_sync::rollout::{rewrite_provider_lines, rewrite_session_lines};
use codex_local_sync::payload::JsonValue;
use codex_local_sync::rollout::{normalize_for_comparison, snapshot_of_lines};

fn to_json(value: &JsonValue) -> serde_json::Value {
    match value {
        JsonValue::Null => serde_json::Value::Null,
        JsonValue::Bool(b) => serde_json::Value::Bool(*b),
        JsonValue::Number(Some(n)) => serde_json::Value::from(*n),
        JsonValue::Number(None) => serde_json::Value::Null,
        JsonValue::OtherNumber(t) => serde_json::Value::Number(t.parse().unwrap()),
        JsonValue::Text(s) => serde_json::Value::String(s.clone()),
        JsonValue::Array(items) => serde_json::Value::Array(items.iter().map(to_json).collect()),
        JsonValue::Object(entries) => {
            serde_json::Value::Object(entries.iter().map(|(k, v)| (k.clone(), to_json(v))).collect())
        }
    }
}

fn from_json(value: &serde_json::Value) -> JsonValue {
    match value {
        serde_json::Value::Null => JsonValue::Null,
        serde_json::Value::Bool(b) => JsonValue::Bool(*b),
        serde_json::Value::Number(n) => match n.as_i64() {
            Some(i) => JsonValue::Number(Some(i)),
            None => JsonValue::OtherNumber(n.to_string()),
        },
        serde_json::Value::String(s) => JsonValue::Text(s.clone()),
        serde_json::Value::Array(items) => JsonValue::Array(items.iter().map(from_json).collect()),
        serde_json::Value::Object(map) => {
            JsonValue::Object(map.iter().map(|(k, v)| (k.clone(), from_json(v))).collect())
        }
    }
}

fn rollout(provider: &str, thread: &str) -> Vec<String> {
    vec![
        format!("{{\"type\":\"session_meta\",\"payload\":{{\"id\":\"{thread}\",\"cwd\":\"/tmp/project\",\"model_provider\":\"{provider}\"}}}}"),
        "{\"type\":\"message\",\"payload\":{\"text\":\"hello\",\"temperature\":0.5}}".to_string(),
    ]
}

fn snapshot(lines: &[String]) -> codex_local_sync::sessions::ThreadSnapshot {
    let parsed: Vec<JsonValue> =
        lines.iter().map(|l| from_json(&serde_json::from_str(l).unwrap())).collect();
    let normalized: Vec<String> = lines
        .iter()
        .map(|l| {
            let v = normalize_for_comparison(from_json(&serde_json::from_str(l).unwrap()));
            serde_json::to_string(&to_json(&v)).unwrap()
        })
        .collect();
    snapshot_of_lines(&parsed, normalized, "/h/sessions/r.jsonl", false, None, Some("t".into()), 10, "raw".into())
        .unwrap()
}

#[test]
fn provider_does_not_change_content_hash() {
    let a = snapshot(&rollout("openai", "thread-1"));
    let b = snapshot(&rollout("relay", "thread-2"));
    assert_eq!(a.content_sha256, b.content_sha256);
    assert_eq!(a.provider_id.as_deref(), Some("openai"));
    assert_eq!(b.thread_id, "thread-2");
    assert_eq!(a.title, "thread-1");
    assert_eq!(a.updated_at.as_deref(), Some("t"));
    assert_ne!(a.content_sha256, snapshot(&["{\"type\":\"session_meta\",\"payload\":{\"id\":\"x\"}}".to_string()]).content_sha256);
}

#[test]
fn comparison_replaces_ids_and_adds_the_provider() {
    let line: serde_json::Value = serde_json::from_str(
        "{\"type\":\"session_meta\",\"payload\":{\"session_id\":\"s\",\"cwd\":\"/p\",\"n\":1.25}}",
    )
    .unwrap();
    let normalized = to_json(&normalize_for_comparison(from_json(&line)));
    assert_eq!(
        normalized.to_string(),
        "{\"payload\":{\"cwd\":\"/p\",\"model_provider\":\"__provider__\",\"n\":1.25,\"session_id\":\"__thread_id__\"},\"type\":\"session_meta\"}"
    );
    let other: serde_json::Value = serde_json::from_str("{\"type\":\"message\",\"payload\":{\"id\":\"x\"}}").unwrap();
    assert_eq!(to_json(&normalize_for_comparison(from_json(&other))), other);
    let bad: serde_json::Value = serde_json::from_str("{\"type\":\"session_meta\",\"payload\":3}").unwrap();
    assert_eq!(to_json(&normalize_for_comparison(from_json(&bad))), bad);
}

#[test]
fn rollouts_without_a_usable_meta_line_are_refused() {
    let parsed = vec![from_json(&serde_json::from_str("{\"type\":\"message\"}").unwrap())];
    let e = snapshot_of_lines(&parsed, vec![], "/r.jsonl", false, None, None, 0, String::new()).unwrap_err();
    assert_eq!(e.message(), "/r.jsonl has no session_meta");
    let parsed = vec![from_json(&serde_json::from_str("{\"type\":\"session_meta\",\"payload\":{\"id\":\" \"}}").unwrap())];
    let e = snapshot_of_lines(&parsed, vec![], "/r.jsonl", false, None, None, 0, String::new()).unwrap_err();
    assert_eq!(e.message(), "session_meta has no thread id");
}

#[test]
fn only_the_first_meta_line_gets_the_new_provider() {
    let lines: Vec<JsonValue> = [
        "{\"type\":\"message\"}",
        "{\"type\":\"session_meta\",\"payload\":{\"id\":\"t\",\"model_provider\":\"openai\"}}",
        "{\"type\":\"session_meta\",\"payload\":{\"id\":\"t\"}}",
    ]
    .iter()
    .map(|l| from_json(&serde_json::from_str(l).unwrap()))
    .collect();
    let out: Vec<String> = rewrite_provider_lines(lines, "relay").unwrap().iter().map(|v| to_json(v).to_string()).collect();
    assert_eq!(
        out,
        vec![
            "{\"type\":\"message\"}".to_string(),
            "{\"payload\":{\"id\":\"t\",\"model_provider\":\"relay\"},\"type\":\"session_meta\"}".to_string(),
            "{\"payload\":{\"id\":\"t\"},\"type\":\"session_meta\"}".to_string(),
        ]
    );
    let none = vec![from_json(&serde_json::from_str("{\"type\":\"message\"}").unwrap())];
    assert_eq!(rewrite_provider_lines(none, "relay").unwrap_err().message(), "session_meta was not found");
    let bad = vec![from_json(&serde_json::from_str("{\"type\":\"session_meta\",\"payload\":[]}").unwrap())];
    assert_eq!(rewrite_provider_lines(bad, "relay").unwrap_err().message(), "session_meta payload is invalid");
}

fn parse(lines: &[&str]) -> Vec<JsonValue> {
    lines.iter().map(|l| from_json(&serde_json::from_str(l).unwrap())).collect()
}

#[test]
fn a_pair_side_is_rewritten_as_the_other_thread() {
    let out: Vec<String> = rewrite_session_lines(
        parse(&[
            "{\"type\":\"session_meta\",\"payload\":{\"id\":\"a\",\"model_provider\":\"openai\"}}",
            "{\"type\":\"message\",\"payload\":{\"id\":\"a\"}}",
            "{\"type\":\"session_meta\",\"payload\":{\"session_id\":\"a\"}}",
        ]),
        "b",
        "relay",
    )
    .unwrap()
    .iter()
    .map(|v| to_json(v).to_string())
    .collect();
    assert_eq!(
        out,
        vec![
            "{\"payload\":{\"id\":\"b\",\"model_provider\":\"relay\"},\"type\":\"session_meta\"}".to_string(),
            "{\"payload\":{\"id\":\"a\"},\"type\":\"message\"}".to_string(),
            "{\"payload\":{\"model_provider\":\"relay\",\"session_id\":\"b\"},\"type\":\"session_meta\"}".to_string(),
        ]
    );
    let message = |lines: &[&str]| rewrite_session_lines(parse(lines), "b", "relay").err().unwrap().message();
    assert_eq!(message(&["{\"type\":\"message\"}"]), "source rollout has no session_meta");
    assert_eq!(
        message(&[
            "{\"type\":\"session_meta\",\"payload\":{\"id\":\"a\"}}",
            "{\"type\":\"session_meta\",\"payload\":{\"id\":\"c\"}}",
        ]),
        "source rollout contains conflicting Thread IDs"
    );
    assert_eq!(message(&["{\"type\":\"session_meta\",\"payload\":{\"id\":\"\"}}"]), "session_meta has no thread id");
    assert_eq!(message(&["{\"type\":\"session_meta\",\"payload\":1}"]), "session_meta payload is invalid");
}

#[test]
fn a_fork_needs_one_thread_and_one_provider_in_its_meta_lines() {
    let meta = |id: &str, provider: &str| format!("{{\"type\":\"session_meta\",\"payload\":{{\"id\":\"{id}\",\"model_provider\":\"{provider}\"}}}}");
    let check = |lines: Vec<String>| {
        let refs: Vec<&str> = lines.iter().map(String::as_str).collect();
        check_replica_lines(&parse(&refs), "f").err().map(|e| e.message())
    };
    assert_eq!(check(vec![meta("f", "openai"), "{\"type\":\"message\"}".into(), meta("f", "openai")]), None);
    assert_eq!(check(vec!["{\"type\":\"message\"}".into()]), Some("replica session_meta was not found".into()));
    assert_eq!(check(vec![meta("g", "openai")]), Some("replica session_meta contains a conflicting Thread ID".into()));
    assert_eq!(
        check(vec![meta("f", "openai"), meta("f", "relay")]),
        Some("replica contains conflicting session_meta Providers".into())
    );
    assert_eq!(check(vec!["{\"type\":\"session_meta\",\"payload\":{}}".into()]), Some("session_meta has no thread id".into()));
}
