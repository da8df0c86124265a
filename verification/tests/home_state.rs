use codex_local_sync::home_state::{text_lines, text_of_lines, updated_project_index, upserted_index};
use codex_local_sync::payload::JsonValue;

fn text(s: &str) -> JsonValue {
    JsonValue::Text(s.to_string())
}

fn keys_and_lists(v: &JsonValue) -> Vec<(String, Vec<String>)> {
    match v {
        JsonValue::Object(es) => es
            .iter()
            .map(|(k, v)| {
                let items = match v {
                    JsonValue::Array(a) => a
                        .iter()
                        .map(|x| match x {
                            JsonValue::Text(t) => t.clone(),
                            other => format!("{other:?}"),
                        })
                        .collect(),
                    other => vec![format!("{other:?}")],
                };
                (k.clone(), items)
            })
            .collect(),
        _ => panic!("an object"),
    }
}

#[test]
fn the_index_entry_replaces_the_old_lines_of_its_thread_or_is_appended() {
    let lines = vec!["{\"id\":\"a\"}".to_string(), "  ".to_string(), "{\"id\":\"b\",\"n\":1}".to_string(), "junk".to_string()];
    let ids = vec![Some("a".to_string()), None, Some("b".to_string()), None];
    assert_eq!(
        upserted_index(&lines, &ids, "{\"id\":\"b\",\"n\":2}", "b"),
        "{\"id\":\"a\"}\n{\"id\":\"b\",\"n\":2}\njunk\n"
    );
    assert_eq!(upserted_index(&lines, &ids, "{\"id\":\"c\"}", "c"), "{\"id\":\"a\"}\n{\"id\":\"b\",\"n\":1}\njunk\n{\"id\":\"c\"}\n");
    assert_eq!(upserted_index(&vec![], &vec![], "{\"id\":\"c\"}", "c"), "{\"id\":\"c\"}\n");
}

#[test]
fn a_project_is_listed_once_in_both_project_lists() {
    assert!(updated_project_index(None, Some("  ")).unwrap().is_none());
    assert!(updated_project_index(None, None).unwrap().is_none());
    let fresh = updated_project_index(None, Some(" /p ")).unwrap().unwrap();
    assert_eq!(
        keys_and_lists(&fresh),
        vec![
            ("project-order".to_string(), vec!["/p".to_string()]),
            ("electron-saved-workspace-roots".to_string(), vec!["/p".to_string()]),
        ]
    );
    let state = JsonValue::Object(vec![
        ("electron-saved-workspace-roots".to_string(), JsonValue::Array(vec![text("/p")])),
        ("other".to_string(), JsonValue::Bool(true)),
    ]);
    let updated = updated_project_index(Some(state), Some("/p")).unwrap().unwrap();
    assert_eq!(
        keys_and_lists(&updated),
        vec![
            ("electron-saved-workspace-roots".to_string(), vec!["/p".to_string()]),
            ("other".to_string(), vec!["Bool(true)".to_string()]),
            ("project-order".to_string(), vec!["/p".to_string()]),
        ]
    );
    assert_eq!(
        updated_project_index(Some(JsonValue::Array(vec![])), Some("/p")).unwrap_err().message(),
        "global state is not a JSON object"
    );
    let bad = JsonValue::Object(vec![("electron-saved-workspace-roots".to_string(), text("x"))]);
    assert_eq!(
        updated_project_index(Some(bad), Some("/p")).unwrap_err().message(),
        "global state electron-saved-workspace-roots is not an array"
    );
}

#[test]
fn files_are_read_as_trimmed_non_blank_lines_and_written_line_by_line() {
    assert_eq!(text_lines(" a \r\n\n  \nb\nc"), vec!["a".to_string(), "b".to_string(), "c".to_string()]);
    assert_eq!(text_lines(""), Vec::<String>::new());
    assert_eq!(text_lines("x\n"), vec!["x".to_string()]);
    assert_eq!(text_of_lines(&vec!["a".into(), "b".into()]), "a\nb\n");
    assert_eq!(text_of_lines(&vec![]), "");
}
