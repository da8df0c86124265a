use codex_local_sync::models::ThreadSourceKind;
use codex_local_sync::payload::{
    classify_source, explicit_agent_nickname, explicit_parent_thread_id, hash_lines,
    index_entry_id, index_title, index_updated_at, session_meta_of, snapshot_title,
    timestamp_to_rfc3339, JsonValue,
};
use codex_local_sync::provider::digest;

fn text(s: &str) -> JsonValue {
    JsonValue::Text(s.to_string())
}

fn obj(entries: Vec<(&str, JsonValue)>) -> JsonValue {
    JsonValue::Object(entries.into_iter().map(|(k, v)| (k.to_string(), v)).collect())
}

#[test]
fn only_explicit_internal_sources_are_classified_as_internal() {
    assert_eq!(
        classify_source(&obj(vec![
            ("thread_source", text("subagent")),
            ("source", obj(vec![("subagent", obj(vec![("other", text("worker"))]))])),
        ])),
        ThreadSourceKind::Internal
    );
    assert_eq!(
        classify_source(&obj(vec![
            ("thread_source", text("user")),
            ("source", obj(vec![("desktop", obj(vec![("surface", text("codex"))]))])),
        ])),
        ThreadSourceKind::Unknown
    );
    assert_eq!(
        classify_source(&obj(vec![
            ("thread_source", text("user")),
            ("source", JsonValue::Array(vec![text("vscode")])),
        ])),
        ThreadSourceKind::Unknown
    );
}

#[test]
fn reads_subagent_nickname_and_rejects_missing_or_blank_names() {
    assert_eq!(
        explicit_agent_nickname(&obj(vec![("agent_nickname", text("Fermat"))])).as_deref(),
        Some("Fermat")
    );
    assert_eq!(
        explicit_agent_nickname(&obj(vec![(
            "source",
            obj(vec![(
                "subagent",
                obj(vec![("thread_spawn", obj(vec![("agent_nickname", text("Boyle"))]))])
            )])
        )]))
        .as_deref(),
        Some("Boyle")
    );
    assert_eq!(explicit_agent_nickname(&obj(vec![("agent_nickname", text("   "))])), None);
    assert_eq!(
        explicit_agent_nickname(&obj(vec![(
            "source",
            obj(vec![("subagent", obj(vec![("other", text("guardian"))]))])
        )])),
        None
    );
}

#[test]
fn sources_by_name_and_case() {
    assert_eq!(classify_source(&obj(vec![("source", text("CLI"))])), ThreadSourceKind::Cli);
    assert_eq!(classify_source(&obj(vec![("source", text("vscode"))])), ThreadSourceKind::Vscode);
    assert_eq!(
        classify_source(&obj(vec![("thread_source", text("User")), ("source", text("cli"))])),
        ThreadSourceKind::Cli
    );
    assert_eq!(
        classify_source(&obj(vec![("source", obj(vec![("review", JsonValue::Null)]))])),
        ThreadSourceKind::Internal
    );
    assert_eq!(classify_source(&obj(vec![])), ThreadSourceKind::Unknown);
}

#[test]
fn parent_ids_come_from_the_payload_or_the_subagent_source() {
    assert_eq!(
        explicit_parent_thread_id(&obj(vec![("parentId", text(" p1 "))])).as_deref(),
        Some("p1")
    );
    assert_eq!(
        explicit_parent_thread_id(&obj(vec![(
            "source",
            obj(vec![("subagent", obj(vec![("parent_thread_id", text("p2"))]))])
        )]))
        .as_deref(),
        Some("p2")
    );
    assert_eq!(explicit_parent_thread_id(&obj(vec![("parent_id", JsonValue::Number(Some(3)))])), None);
}

#[test]
fn index_entries_give_titles_times_and_ids() {
    let entry = obj(vec![
        ("id", text("t1")),
        ("title", text("  Hello ")),
        ("updated_at", JsonValue::Number(Some(0))),
    ]);
    assert_eq!(index_title(&entry).as_deref(), Some("Hello"));
    assert_eq!(index_updated_at(&entry).as_deref(), Some("1970-01-01T00:00:00+00:00"));
    assert_eq!(index_entry_id(&entry).as_deref(), Some("t1"));
    assert_eq!(
        index_entry_id(&obj(vec![("thread_id", text("t2"))])).as_deref(),
        Some("t2")
    );
    assert_eq!(index_entry_id(&obj(vec![("id", JsonValue::Number(Some(1)))])), None);
    assert_eq!(snapshot_title(None, "t9"), "t9");
    assert_eq!(snapshot_title(Some(&obj(vec![])), "t9"), "t9");
}

#[test]
fn timestamps_in_seconds_and_milliseconds() {
    assert_eq!(timestamp_to_rfc3339(1).as_deref(), Some("1970-01-01T00:00:01+00:00"));
    assert_eq!(
        timestamp_to_rfc3339(1_700_000_000_000).as_deref(),
        Some("2023-11-14T22:13:20+00:00")
    );
}

#[test]
fn session_meta_is_read_from_the_first_meta_line() {
    let lines = vec![
        obj(vec![("type", text("message"))]),
        obj(vec![
            ("type", text("session_meta")),
            (
                "payload",
                obj(vec![
                    ("id", text("thread-1")),
                    ("cwd", text("/tmp/project")),
                    ("model_provider", text("openai")),
                    ("source", text("vscode")),
                ]),
            ),
        ]),
    ];
    let meta = session_meta_of(&lines, "/r.jsonl").unwrap();
    assert_eq!(meta.thread_id, "thread-1");
    assert_eq!(meta.cwd.as_deref(), Some("/tmp/project"));
    assert_eq!(meta.provider_id.as_deref(), Some("openai"));
    assert_eq!(meta.source_kind, ThreadSourceKind::Vscode);
    let err = session_meta_of(&vec![obj(vec![("type", text("message"))])], "/r.jsonl").unwrap_err();
    assert_eq!(err.message(), "/r.jsonl has no session_meta");
    let blank = vec![obj(vec![("type", text("session_meta")), ("payload", obj(vec![("id", text(" "))]))])];
    assert_eq!(
        session_meta_of(&blank, "/r.jsonl").unwrap_err().message(),
        "session_meta has no thread id"
    );
}

#[test]
fn content_hash_is_the_digest_of_newline_ended_lines() {
    let lines = vec!["a".to_string(), "b".to_string()];
    assert_eq!(hash_lines(&lines), digest(b"a\nb\n"));
    assert_eq!(hash_lines(&Vec::new()), digest(b""));
}
