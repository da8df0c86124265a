//! The JSON lines of a rollout file as the library edits them: the `session_meta` payload
//! with its thread id and provider set aside, so that a replica and its source compare
//! equal, and the thread a rollout describes, read from its lines.
use vstd::prelude::*;

use crate::error::AppError;
use crate::payload::{
    field, get_field, get_text, hash_lines, index_updated_at, index_updated_at_of, key_index, lines_bytes,
    meta_index, meta_thread_id, no_meta_text, no_thread_id_text, payload_of, session_meta_of,
    snapshot_title, text_of, thread_title, JsonValue,
};
use crate::provider::{hex_of, sha256_of};
use crate::sessions::ThreadSnapshot;
use crate::text::{chars_of, is_blank, opt_chars, str_eq};

verus! {

/// The value is the text `t`.
pub open spec fn is_text(v: JsonValue, t: Seq<char>) -> bool {
    v matches JsonValue::Text(s) && s@ == t
}

/// `new` is `old` with the value under `key` set to the text `t`: the first entry with the
/// key takes it and keeps its key; without one, an entry is added at the end.
pub open spec fn text_set(
    old: Seq<(String, JsonValue)>,
    new: Seq<(String, JsonValue)>,
    key: Seq<char>,
    t: Seq<char>,
) -> bool {
    let k = key_index(old, key);
    if k >= 0 {
        &&& new.len() == old.len()
        &&& forall|j: int| 0 <= j < old.len() && j != k ==> new[j] == old[j]
        &&& new[k].0 == old[k].0
        &&& is_text(new[k].1, t)
    } else {
        &&& new.len() == old.len() + 1
        &&& forall|j: int| 0 <= j < old.len() ==> new[j] == old[j]
        &&& new[old.len() as int].0@ == key
        &&& is_text(new[old.len() as int].1, t)
    }
}

/// The text that stands for any thread id in a line set aside for comparison.
pub open spec fn thread_placeholder() -> Seq<char> {
    "__thread_id__"@
}

/// The text that stands for any provider in a line set aside for comparison.
pub open spec fn provider_placeholder() -> Seq<char> {
    "__provider__"@
}

/// The three edits of a payload, one after the other: `id` and `session_id` set to the
/// thread placeholder where present, then `model_provider` set to the provider placeholder.
pub open spec fn placeholder_steps(
    p: Seq<(String, JsonValue)>,
    a: Seq<(String, JsonValue)>,
    b: Seq<(String, JsonValue)>,
    q: Seq<(String, JsonValue)>,
) -> bool {
    &&& if key_index(p, "id"@) >= 0 {
        text_set(p, a, "id"@, thread_placeholder())
    } else {
        a == p
    }
    &&& if key_index(a, "session_id"@) >= 0 {
        text_set(a, b, "session_id"@, thread_placeholder())
    } else {
        b == a
    }
    &&& text_set(b, q, "model_provider"@, provider_placeholder())
}

/// A payload with its thread id and provider set aside.
pub open spec fn payload_normalized(p: Seq<(String, JsonValue)>, q: Seq<(String, JsonValue)>) -> bool {
    exists|a: Seq<(String, JsonValue)>, b: Seq<(String, JsonValue)>| #[trigger]
        placeholder_steps(p, a, b, q)
}

/// The payload entries of a `session_meta` line: the line's `type` is `session_meta` and
/// its `payload` an object.
pub open spec fn meta_payload(line: JsonValue) -> Option<Seq<(String, JsonValue)>> {
    if text_of(field(line, "type"@)) == Some("session_meta"@) {
        match field(line, "payload"@) {
            Some(JsonValue::Object(p)) => Some(p@),
            _ => None,
        }
    } else {
        None
    }
}

/// `r` is the line as compared: a `session_meta` line with an object payload gets that
/// payload set aside ([`payload_normalized`]) in place; every other line is kept.
pub open spec fn line_normalized(line: JsonValue, r: JsonValue) -> bool {
    match meta_payload(line) {
        None => r == line,
        Some(p) => {
            &&& line matches JsonValue::Object(es)
            &&& r matches JsonValue::Object(es2)
            &&& {
                let k = key_index(es@, "payload"@);
                &&& es2@.len() == es@.len()
                &&& forall|j: int| 0 <= j < es@.len() && j != k ==> es2@[j] == es@[j]
                &&& es2@[k].0 == es@[k].0
                &&& es2@[k].1 matches JsonValue::Object(q) && payload_normalized(p, q@)
            }
        },
    }
}

fn find_key(es: &Vec<(String, JsonValue)>, key: &str) -> (r: Option<usize>)
    ensures
        match r {
            Some(k) => k < es@.len() && key_index(es@, key@) == k,
            None => key_index(es@, key@) == -1,
        },
{
    let mut i: usize = 0;
    assert(es@.skip(0) =~= es@);
    while i < es.len()
        invariant
            i <= es@.len(),
            key_index(es@, key@) == if key_index(es@.skip(i as int), key@) < 0 {
                -1
            } else {
                key_index(es@.skip(i as int), key@) + i
            },
        decreases es@.len() - i,
    {
        assert(es@.skip(i as int).drop_first() =~= es@.skip(i + 1));
        assert(es@.skip(i as int)[0] == es@[i as int]);
        if str_eq(es[i].0.as_str(), key) {
            return Some(i);
        }
        i = i + 1;
    }
    assert(es@.skip(i as int).len() == 0);
    None
}

fn set_text(es: &mut Vec<(String, JsonValue)>, key: &str, t: &str)
    ensures
        text_set(old(es)@, final(es)@, key@, t@),
{
    match find_key(es, key) {
        Some(k) => {
            let (name, _) = es.remove(k);
            es.insert(k, (name, JsonValue::Text(t.to_string())));
        },
        None => {
            es.push((key.to_string(), JsonValue::Text(t.to_string())));
        },
    }
}

fn normalize_payload(p: &mut Vec<(String, JsonValue)>)
    ensures
        payload_normalized(old(p)@, final(p)@),
{
    let ghost p0 = p@;
    if find_key(p, "id").is_some() {
        set_text(p, "id", "__thread_id__");
    }
    let ghost a = p@;
    if find_key(p, "session_id").is_some() {
        set_text(p, "session_id", "__thread_id__");
    }
    let ghost b = p@;
    set_text(p, "model_provider", "__provider__");
    assert(placeholder_steps(p0, a, b, p@));
}

/// A rollout line as compared with another rollout's: in a `session_meta` line, `id` and
/// `session_id` (where present) become `__thread_id__` and `model_provider` becomes
/// `__provider__`; every other line is kept.
pub fn normalize_for_comparison(line: JsonValue) -> (r: JsonValue)
    ensures
        line_normalized(line, r),
{
    let is_meta = match get_text(&line, "type") {
        Some(t) => str_eq(t.as_str(), "session_meta"),
        None => false,
    };
    if !is_meta {
        return line;
    }
    let ghost before = line;
    assert(text_of(field(before, "type"@)) == Some("session_meta"@));
    match line {
        JsonValue::Object(mut es) => {
            let ghost es0 = es@;
            assert(before == JsonValue::Object(es));
            match find_key(&es, "payload") {
                None => {
                    assert(field(before, "payload"@) is None);
                    JsonValue::Object(es)
                },
                Some(k) => {
                    assert(field(before, "payload"@) == Some(es0[k as int].1));
                    let is_object = match &es[k].1 {
                        JsonValue::Object(_) => true,
                        _ => false,
                    };
                    if !is_object {
                        assert(meta_payload(before) is None);
                        return JsonValue::Object(es);
                    }
                    let (name, value) = es.remove(k);
                    assert(value == es0[k as int].1);
                    let value = match value {
                        JsonValue::Object(mut p) => {
                            let ghost p0 = p@;
                            normalize_payload(&mut p);
                            assert(meta_payload(before) == Some(p0));
                            JsonValue::Object(p)
                        },
                        other => other,
                    };
                    es.insert(k, (name, value));
                    assert(es@ =~= es0.update(k as int, es@[k as int]));
                    assert(es@[k as int].0 == es0[k as int].0);
                    JsonValue::Object(es)
                },
            }
        },
        other => other,
    }
}

/// The thread a rollout's lines describe. `lines` are the file's non-blank lines as parsed,
/// `normalized_lines` the same lines set aside for comparison as written out, `index_entry`
/// the thread's entry in the session index, `modified_at` when the file was last written,
/// `raw_sha256` the digest of the file's bytes.
pub fn snapshot_of_lines(
    lines: &Vec<JsonValue>,
    normalized_lines: Vec<String>,
    rollout_path: &str,
    archived: bool,
    index_entry: Option<&JsonValue>,
    modified_at: Option<String>,
    size_bytes: u64,
    raw_sha256: String,
) -> (r: Result<ThreadSnapshot, AppError>)
    ensures
        ({
            let k = meta_index(lines@);
            let p = payload_of(lines@[k]);
            match r {
                Err(e) => e is InvalidSession && if k < 0 {
                    e.text() == no_meta_text(rollout_path@)
                } else {
                    meta_thread_id(p) is None && e.text() == no_thread_id_text()
                },
                Ok(s) => {
                    &&& k >= 0
                    &&& meta_thread_id(p) == Some(s.thread_id@)
                    &&& opt_chars(s.cwd) == text_of(field(p, "cwd"@))
                    &&& opt_chars(s.provider_id) == text_of(field(p, "model_provider"@))
                    &&& s.title@ == thread_title(
                        match index_entry {
                            Some(e) => Some(*e),
                            None => None,
                        },
                        s.thread_id@,
                    )
                    &&& opt_chars(s.updated_at) == match index_entry {
                        Some(e) => match index_updated_at_of(*e) {
                            Some(t) => Some(t),
                            None => opt_chars(modified_at),
                        },
                        None => opt_chars(modified_at),
                    }
                    &&& s.archived == archived
                    &&& s.size_bytes == size_bytes
                    &&& s.content_sha256@ == hex_of(sha256_of(lines_bytes(normalized_lines@)))
                    &&& s.raw_sha256 == raw_sha256
                    &&& s.rollout_path@ == rollout_path@
                    &&& s.normalized_lines == normalized_lines
                }
            }
        }),
{
    let meta = match session_meta_of(lines, rollout_path) {
        Ok(m) => m,
        Err(e) => return Err(e),
    };
    let title = snapshot_title(index_entry, meta.thread_id.as_str());
    let from_index = match index_entry {
        Some(e) => index_updated_at(e),
        None => None,
    };
    let updated_at = match from_index {
        Some(t) => Some(t),
        None => modified_at,
    };
    let content_sha256 = hash_lines(&normalized_lines);
    Ok(
        ThreadSnapshot {
            thread_id: meta.thread_id,
            title,
            cwd: meta.cwd,
            provider_id: meta.provider_id,
            updated_at,
            archived,
            size_bytes,
            content_sha256,
            raw_sha256,
            source_kind: meta.source_kind,
            agent_nickname: meta.agent_nickname,
            parent_thread_id: meta.parent_thread_id,
            rollout_path: rollout_path.to_string(),
            normalized_lines,
        },
    )
}


pub open spec fn invalid_payload_text() -> Seq<char> {
    "session_meta payload is invalid"@
}

pub open spec fn meta_not_found_text() -> Seq<char> {
    "session_meta was not found"@
}

/// `r` is the rollout's lines with the provider of the first `session_meta` line set to
/// `provider`, every other line kept; an error where there is no such line or its payload
/// is no object.
pub open spec fn provider_rewritten(lines: Seq<JsonValue>, provider: Seq<char>, r: Result<Vec<JsonValue>, AppError>) -> bool {
    let k = meta_index(lines);
    if k < 0 {
        r matches Err(e) && e is InvalidSession && e.text() == meta_not_found_text()
    } else {
        match field(lines[k], "payload"@) {
            Some(JsonValue::Object(p)) => {
                &&& r matches Ok(out)
                &&& out@.len() == lines.len()
                &&& forall|j: int| 0 <= j < lines.len() && j != k ==> out@[j] == lines[j]
                &&& lines[k] matches JsonValue::Object(es)
                &&& out@[k] matches JsonValue::Object(es2)
                &&& {
                    let i = key_index(es@, "payload"@);
                    &&& es2@.len() == es@.len()
                    &&& forall|j: int| 0 <= j < es@.len() && j != i ==> es2@[j] == es@[j]
                    &&& es2@[i].0 == es@[i].0
                    &&& es2@[i].1 matches JsonValue::Object(q) && text_set(p@, q@, "model_provider"@, provider)
                }
            },
            _ => r matches Err(e) && e is InvalidSession && e.text() == invalid_payload_text(),
        }
    }
}

fn find_meta_line(lines: &Vec<JsonValue>) -> (r: Option<usize>)
    ensures
        match r {
            Some(i) => meta_index(lines@) == i as int && i < lines@.len(),
            None => meta_index(lines@) == -1,
        },
{
    let mut i: usize = 0;
    assert(lines@.skip(0) =~= lines@);
    while i < lines.len()
        invariant
            i <= lines@.len(),
            meta_index(lines@) == if meta_index(lines@.skip(i as int)) < 0 {
                -1
            } else {
                meta_index(lines@.skip(i as int)) + i
            },
        decreases lines@.len() - i,
    {
        assert(lines@.skip(i as int).drop_first() =~= lines@.skip(i + 1));
        assert(lines@.skip(i as int)[0] == lines@[i as int]);
        let is_meta = match get_text(&lines[i], "type") {
            Some(t) => str_eq(t.as_str(), "session_meta"),
            None => false,
        };
        if is_meta {
            return Some(i);
        }
        i = i + 1;
    }
    assert(lines@.skip(i as int).len() == 0);
    None
}

/// A rollout's lines with the provider of its first `session_meta` line set to `provider`,
/// as a copy of the session made for that provider is written.
pub fn rewrite_provider_lines(lines: Vec<JsonValue>, provider: &str) -> (r: Result<Vec<JsonValue>, AppError>)
    ensures
        provider_rewritten(lines@, provider@, r),
{
    let mut lines = lines;
    let ghost l0 = lines@;
    let k = match find_meta_line(&lines) {
        Some(k) => k,
        None => return Err(AppError::InvalidSession("session_meta was not found".to_string())),
    };
    let line = lines.remove(k);
    assert(line == l0[k as int]);
    let ghost before = line;
    match line {
        JsonValue::Object(mut es) => {
            let ghost es0 = es@;
            assert(before == JsonValue::Object(es));
            let i = match find_key(&es, "payload") {
                Some(i) => i,
                None => {
                    assert(field(before, "payload"@) is None);
                    return Err(AppError::InvalidSession("session_meta payload is invalid".to_string()));
                },
            };
            assert(field(before, "payload"@) == Some(es0[i as int].1));
            let (name, value) = es.remove(i);
            match value {
                JsonValue::Object(mut p) => {
                    set_text(&mut p, "model_provider", provider);
                    es.insert(i, (name, JsonValue::Object(p)));
                    assert(es@ =~= es0.update(i as int, es@[i as int]));
                    lines.insert(k, JsonValue::Object(es));
                    assert(lines@ =~= l0.update(k as int, lines@[k as int]));
                    Ok(lines)
                },
                _ => Err(AppError::InvalidSession("session_meta payload is invalid".to_string())),
            }
        },
        _ => {
            assert(field(before, "payload"@) is None);
            Err(AppError::InvalidSession("session_meta payload is invalid".to_string()))
        },
    }
}


/// The line is a `session_meta` line.
pub open spec fn is_meta_line(line: JsonValue) -> bool {
    text_of(field(line, "type"@)) == Some("session_meta"@)
}

/// The thread id a `session_meta` line's object payload gives.
pub open spec fn line_thread_id(line: JsonValue) -> Option<Seq<char>> {
    match field(line, "payload"@) {
        Some(JsonValue::Object(p)) => meta_thread_id(JsonValue::Object(p)),
        _ => None,
    }
}

/// A `session_meta` line that stops the rewrite: its payload is no object, gives no thread
/// id, or gives another thread id than the first `session_meta` line (`first`).
pub open spec fn bad_meta_line(line: JsonValue, first: Option<Seq<char>>) -> bool {
    is_meta_line(line) && (!(field(line, "payload"@) matches Some(JsonValue::Object(_)))
        || line_thread_id(line) is None || line_thread_id(line) != first)
}

pub open spec fn no_source_meta_text() -> Seq<char> {
    "source rollout has no session_meta"@
}

pub open spec fn conflicting_ids_text() -> Seq<char> {
    "source rollout contains conflicting Thread IDs"@
}

/// The error a stopping line gives.
pub open spec fn bad_meta_text(line: JsonValue) -> Seq<char> {
    if !(field(line, "payload"@) matches Some(JsonValue::Object(_))) {
        invalid_payload_text()
    } else if line_thread_id(line) is None {
        no_thread_id_text()
    } else {
        conflicting_ids_text()
    }
}

/// `r` is `line` with its payload `p` made the thread `thread` of `provider`: `id` (or,
/// where the payload has no `id`, `session_id`) set to `thread`, then `model_provider` set.
pub open spec fn meta_line_moved(line: JsonValue, r: JsonValue, thread: Seq<char>, provider: Seq<char>) -> bool {
    &&& line matches JsonValue::Object(es)
    &&& r matches JsonValue::Object(es2)
    &&& field(line, "payload"@) matches Some(JsonValue::Object(p))
    &&& {
        let i = key_index(es@, "payload"@);
        &&& es2@.len() == es@.len()
        &&& forall|j: int| 0 <= j < es@.len() && j != i ==> es2@[j] == es@[j]
        &&& es2@[i].0 == es@[i].0
        &&& es2@[i].1 matches JsonValue::Object(q) && exists|a: Seq<(String, JsonValue)>| #[trigger]
            moved_steps(p@, a, q@, thread, provider)
    }
}

pub open spec fn moved_steps(
    p: Seq<(String, JsonValue)>,
    a: Seq<(String, JsonValue)>,
    q: Seq<(String, JsonValue)>,
    thread: Seq<char>,
    provider: Seq<char>,
) -> bool {
    &&& if key_index(p, "id"@) >= 0 {
        text_set(p, a, "id"@, thread)
    } else {
        text_set(p, a, "session_id"@, thread)
    }
    &&& text_set(a, q, "model_provider"@, provider)
}

/// What rewriting one replica's rollout as the other's gives: an error at the first line
/// that stops it (or where there is no `session_meta` line); otherwise every
/// `session_meta` line moved to `thread` of `provider` and every other line kept.
/// The thread id of the first `session_meta` line, where there is one.
pub open spec fn first_thread(lines: Seq<JsonValue>) -> Option<Seq<char>> {
    if meta_index(lines) >= 0 {
        line_thread_id(lines[meta_index(lines)])
    } else {
        None
    }
}

pub open spec fn session_rewritten(lines: Seq<JsonValue>, thread: Seq<char>, provider: Seq<char>, r: Result<Vec<JsonValue>, AppError>) -> bool {
    let m = meta_index(lines);
    let first = first_thread(lines);
    if m < 0 {
        r matches Err(e) && e is InvalidSession && e.text() == no_source_meta_text()
    } else {
        match r {
            Err(e) => exists|k: int| 0 <= k < lines.len() && #[trigger] bad_meta_line(lines[k], first)
                && (forall|j: int| 0 <= j < k ==> !bad_meta_line(lines[j], first))
                && e is InvalidSession && e.text() == bad_meta_text(lines[k]),
            Ok(out) => {
                &&& forall|j: int| 0 <= j < lines.len() ==> !#[trigger] bad_meta_line(lines[j], first)
                &&& out@.len() == lines.len()
                &&& forall|j: int| 0 <= j < lines.len() ==> if is_meta_line(#[trigger] lines[j]) {
                    meta_line_moved(lines[j], out@[j], thread, provider)
                } else {
                    out@[j] == lines[j]
                }
            },
        }
    }
}

fn thread_id_of(payload: &JsonValue) -> (r: Option<String>)
    ensures
        opt_chars(r) == meta_thread_id(*payload),
{
    let id = match get_field(payload, "id") {
        Some(x) => Some(x),
        None => get_field(payload, "session_id"),
    };
    match id {
        Some(JsonValue::Text(t)) => {
            if is_blank(&chars_of(t.as_str())) {
                None
            } else {
                Some(t.clone())
            }
        },
        _ => None,
    }
}

fn is_meta(line: &JsonValue) -> (r: bool)
    ensures
        r == is_meta_line(*line),
{
    match get_text(line, "type") {
        Some(t) => str_eq(t.as_str(), "session_meta"),
        None => false,
    }
}

/// The thread id of a `session_meta` line with an object payload.
fn line_id(line: &JsonValue) -> (r: Result<String, AppError>)
    ensures
        match r {
            Ok(t) => field(*line, "payload"@) matches Some(JsonValue::Object(_)) && line_thread_id(*line)
                == Some(t@),
            Err(e) => e is InvalidSession && (!(field(*line, "payload"@) matches Some(JsonValue::Object(_)))
                || line_thread_id(*line) is None) && e.text() == bad_meta_text(*line),
        },
{
    match get_field(line, "payload") {
        Some(p) => match p {
            JsonValue::Object(_) => match thread_id_of(p) {
                Some(t) => Ok(t),
                None => Err(AppError::InvalidSession("session_meta has no thread id".to_string())),
            },
            _ => Err(AppError::InvalidSession("session_meta payload is invalid".to_string())),
        },
        None => Err(AppError::InvalidSession("session_meta payload is invalid".to_string())),
    }
}

fn move_meta_line(line: JsonValue, thread: &str, provider: &str) -> (r: JsonValue)
    requires
        field(line, "payload"@) matches Some(JsonValue::Object(_)),
    ensures
        meta_line_moved(line, r, thread@, provider@),
{
    let ghost before = line;
    match line {
        JsonValue::Object(mut es) => {
            let ghost es0 = es@;
            assert(before == JsonValue::Object(es));
            let i = match find_key(&es, "payload") {
                Some(i) => i,
                None => {
                    assert(false);
                    return JsonValue::Object(es);
                },
            };
            assert(field(before, "payload"@) == Some(es0[i as int].1));
            let (name, value) = es.remove(i);
            assert(value == es0[i as int].1);
            match value {
                JsonValue::Object(mut p) => {
                    let ghost p0 = p@;
                    assert(field(before, "payload"@) == Some(JsonValue::Object(p)));
                    if find_key(&p, "id").is_some() {
                        set_text(&mut p, "id", thread);
                    } else {
                        set_text(&mut p, "session_id", thread);
                    }
                    let ghost a = p@;
                    set_text(&mut p, "model_provider", provider);
                    assert(moved_steps(p0, a, p@, thread@, provider@));
                    es.insert(i, (name, JsonValue::Object(p)));
                    assert(es@ =~= es0.update(i as int, es@[i as int]));
                    assert(es@[i as int].1 == JsonValue::Object(p));
                    assert(key_index(es0, "payload"@) == i);
                    let ghost q = es@[i as int].1;
                    assert(before matches JsonValue::Object(_));
                    assert(es@.len() == es0.len());
                    assert(forall|j: int| 0 <= j < es0.len() && j != i ==> es@[j] == es0[j]);
                    assert(es@[i as int].0 == es0[i as int].0);
                    assert(moved_steps(p0, a, p@, thread@, provider@));
                    assert(field(before, "payload"@)->Some_0->Object_0@ == p0);
                    assert(es@[i as int].1->Object_0@ == p@);
                    assert(moved_steps(
                        field(before, "payload"@)->Some_0->Object_0@,
                        a,
                        es@[i as int].1->Object_0@,
                        thread@,
                        provider@,
                    ));
                    let r = JsonValue::Object(es);
                    assert(meta_line_moved(before, r, thread@, provider@));
                    r
                },
                other => {
                    assert(false);
                    es.insert(i, (name, other));
                    JsonValue::Object(es)
                },
            }
        },
        other => {
            assert(false);
            other
        },
    }
}

/// The lines of one replica's rollout rewritten as the other's: every `session_meta` line
/// made the thread `thread` of `provider`. All `session_meta` lines must have object
/// payloads giving one thread id, and there must be one.
pub fn rewrite_session_lines(lines: Vec<JsonValue>, thread: &str, provider: &str) -> (r: Result<Vec<JsonValue>, AppError>)
    ensures
        session_rewritten(lines@, thread@, provider@, r),
{
    let ghost l0 = lines@;
    let m = match find_meta_line(&lines) {
        Some(m) => m,
        None => return Err(AppError::InvalidSession("source rollout has no session_meta".to_string())),
    };
    let ghost first = first_thread(l0);
    let first_id = match line_id(&lines[m]) {
        Ok(t) => t,
        Err(e) => {
            proof {
                lemma_meta_index_is_meta(l0);
                assert(bad_meta_line(l0[m as int], first));
                assert forall|j: int| 0 <= j < m implies !bad_meta_line(l0[j], first) by {
                    lemma_no_meta_before(l0, j);
                }
            }
            return Err(e);
        },
    };
    let n = lines.len();
    let mut src = lines;
    let mut rest: Vec<JsonValue> = Vec::new();
    while src.len() > 0
        invariant
            n == l0.len(),
            src@ == l0.take(n - rest@.len()),
            rest@.len() <= n,
            forall|i: int| 0 <= i < rest@.len() ==> rest@[i] == l0[l0.len() - 1 - i],
        decreases src@.len(),
    {
        let x = match src.pop() {
            Some(x) => x,
            None => {
                assert(false);
                return Err(AppError::InvalidSession("source rollout has no session_meta".to_string()));
            },
        };
        rest.push(x);
        assert(src@ =~= l0.take(n - rest@.len()));
    }
    let mut out: Vec<JsonValue> = Vec::new();
    let mut j: usize = 0;
    while j < n
        invariant
            n == l0.len(),
            j <= l0.len(),
            rest@.len() == l0.len() - j,
            forall|i: int| 0 <= i < rest@.len() ==> rest@[i] == l0[l0.len() - 1 - i],
            out@.len() == j,
            meta_index(l0) >= 0,
            lines@ == l0,
            first == first_thread(l0),
            first == Some(first_id@),
            forall|i: int| 0 <= i < j ==> !#[trigger] bad_meta_line(l0[i], first),
            forall|i: int| 0 <= i < j ==> if is_meta_line(#[trigger] l0[i]) {
                meta_line_moved(l0[i], out@[i], thread@, provider@)
            } else {
                out@[i] == l0[i]
            },
        decreases l0.len() - j,
    {
        let line = match rest.pop() {
            Some(x) => x,
            None => {
                assert(false);
                return Err(AppError::InvalidSession("source rollout has no session_meta".to_string()));
            },
        };
        assert(line == l0[j as int]);
        if is_meta(&line) {
            match line_id(&line) {
                Ok(t) => {
                    if !str_eq(t.as_str(), first_id.as_str()) {
                        proof {
                            assert(bad_meta_line(l0[j as int], first));
                            assert(bad_meta_text(l0[j as int]) == conflicting_ids_text());
                        }
                        let e = AppError::InvalidSession("source rollout contains conflicting Thread IDs".to_string());
                        proof {
                            assert(e.text() == bad_meta_text(l0[j as int]));
                        }
                        return Err(e);
                    }
                },
                Err(e) => {
                    proof {
                        assert(bad_meta_line(l0[j as int], first));
                    }
                    return Err(e);
                },
            }
            out.push(move_meta_line(line, thread, provider));
        } else {
            out.push(line);
        }
        j = j + 1;
    }
    Ok(out)
}

proof fn lemma_meta_index_is_meta(lines: Seq<JsonValue>)
    ensures
        meta_index(lines) >= 0 ==> meta_index(lines) < lines.len() && is_meta_line(lines[meta_index(lines)]),
    decreases lines.len(),
{
    if lines.len() > 0 && !is_meta_line(lines[0]) {
        let t = lines.drop_first();
        lemma_meta_index_is_meta(t);
        if meta_index(t) >= 0 {
            assert(t[meta_index(t)] == lines[meta_index(t) + 1]);
        }
    }
}

proof fn lemma_no_meta_before(lines: Seq<JsonValue>, j: int)
    requires
        0 <= j < lines.len(),
        meta_index(lines) > j,
    ensures
        !is_meta_line(lines[j]),
    decreases j,
{
    if j > 0 {
        let t = lines.drop_first();
        assert(t[j - 1] == lines[j]);
        lemma_no_meta_before(t, j - 1);
    }
}


/// The thread id a payload names (`id`, else `session_id`), as text, blank or not.
pub open spec fn named_thread(p: JsonValue) -> Option<Seq<char>> {
    text_of(crate::payload::first_present(p, "id"@, "session_id"@))
}

/// The provider a `session_meta` line's payload names, the empty text where it names none.
pub open spec fn named_provider(line: JsonValue) -> Seq<char> {
    match field(line, "payload"@) {
        Some(p) => match text_of(field(p, "model_provider"@)) {
            Some(t) => t,
            None => Seq::empty(),
        },
        None => Seq::empty(),
    }
}

/// The provider the first `session_meta` line names.
pub open spec fn first_provider(lines: Seq<JsonValue>) -> Seq<char> {
    named_provider(lines[meta_index(lines)])
}

/// A `session_meta` line of a fork that stops its provider from being set: its payload is
/// no object, names no thread, names another thread than `expected`, or names another
/// provider than the first `session_meta` line (`provider`).
pub open spec fn bad_replica_line(line: JsonValue, expected: Seq<char>, provider: Seq<char>) -> bool {
    is_meta_line(line) && (!(field(line, "payload"@) matches Some(JsonValue::Object(_))) || named_thread(
        field(line, "payload"@)->Some_0,
    ) != Some(expected) || named_provider(line) != provider)
}

pub open spec fn replica_meta_missing_text() -> Seq<char> {
    "replica session_meta was not found"@
}

/// The error a stopping line of a fork gives.
pub open spec fn bad_replica_text(line: JsonValue, expected: Seq<char>) -> Seq<char> {
    if !(field(line, "payload"@) matches Some(JsonValue::Object(_))) {
        invalid_payload_text()
    } else if named_thread(field(line, "payload"@)->Some_0) is None {
        no_thread_id_text()
    } else if named_thread(field(line, "payload"@)->Some_0) != Some(expected) {
        "replica session_meta contains a conflicting Thread ID"@
    } else {
        "replica contains conflicting session_meta Providers"@
    }
}

/// Whether a fork's lines may have their provider set: there is a `session_meta` line, and
/// every one has an object payload naming the thread `expected` and the provider the first
/// one names; otherwise the error of the first line that does not.
pub open spec fn replica_checked(lines: Seq<JsonValue>, expected: Seq<char>, r: Result<(), AppError>) -> bool {
    if meta_index(lines) < 0 {
        r matches Err(e) && e is InvalidSession && e.text() == replica_meta_missing_text()
    } else {
        let provider = first_provider(lines);
        match r {
            Err(e) => exists|k: int| 0 <= k < lines.len() && #[trigger] bad_replica_line(lines[k], expected, provider)
                && (forall|j: int| 0 <= j < k ==> !bad_replica_line(lines[j], expected, provider))
                && e is InvalidSession && e.text() == bad_replica_text(lines[k], expected),
            Ok(()) => forall|j: int| 0 <= j < lines.len() ==> !#[trigger] bad_replica_line(lines[j], expected, provider),
        }
    }
}

fn provider_named(line: &JsonValue) -> (r: String)
    ensures
        r@ == named_provider(*line),
{
    match get_field(line, "payload") {
        Some(p) => match get_text(p, "model_provider") {
            Some(t) => t.clone(),
            None => String::new(),
        },
        None => String::new(),
    }
}

fn thread_named(p: &JsonValue) -> (r: Option<&String>)
    ensures
        match r {
            Some(t) => named_thread(*p) == Some(t@),
            None => named_thread(*p) is None,
        },
{
    let id = match get_field(p, "id") {
        Some(x) => Some(x),
        None => get_field(p, "session_id"),
    };
    match id {
        Some(JsonValue::Text(t)) => Some(t),
        _ => None,
    }
}

/// The error of a `session_meta` line of a fork, if it stops the rewrite.
fn replica_line_error(line: &JsonValue, expected: &str, provider: &str) -> (r: Option<AppError>)
    requires
        is_meta_line(*line),
    ensures
        r is Some <==> bad_replica_line(*line, expected@, provider@),
        r matches Some(e) ==> e is InvalidSession && e.text() == bad_replica_text(*line, expected@),
{
    let p = match get_field(line, "payload") {
        Some(p) => p,
        None => return Some(AppError::InvalidSession("session_meta payload is invalid".to_string())),
    };
    match p {
        JsonValue::Object(_) => {},
        _ => return Some(AppError::InvalidSession("session_meta payload is invalid".to_string())),
    }
    let t = match thread_named(p) {
        Some(t) => t,
        None => return Some(AppError::InvalidSession("session_meta has no thread id".to_string())),
    };
    if !str_eq(t.as_str(), expected) {
        return Some(AppError::InvalidSession("replica session_meta contains a conflicting Thread ID".to_string()));
    }
    if !str_eq(provider_named(line).as_str(), provider) {
        return Some(AppError::InvalidSession("replica contains conflicting session_meta Providers".to_string()));
    }
    None
}

/// Checks a fork's lines before its provider is set (see [`replica_checked`]).
pub fn check_replica_lines(lines: &Vec<JsonValue>, expected_thread_id: &str) -> (r: Result<(), AppError>)
    ensures
        replica_checked(lines@, expected_thread_id@, r),
{
    let m = match find_meta_line(lines) {
        Some(m) => m,
        None => return Err(AppError::InvalidSession("replica session_meta was not found".to_string())),
    };
    proof {
        lemma_meta_index_is_meta(lines@);
    }
    let provider = provider_named(&lines[m]);
    let mut j: usize = 0;
    while j < lines.len()
        invariant
            j <= lines@.len(),
            meta_index(lines@) >= 0,
            provider@ == first_provider(lines@),
            forall|i: int| 0 <= i < j ==> !#[trigger] bad_replica_line(lines@[i], expected_thread_id@, provider@),
        decreases lines@.len() - j,
    {
        if is_meta(&lines[j]) {
            match replica_line_error(&lines[j], expected_thread_id, provider.as_str()) {
                Some(e) => {
                    assert(bad_replica_line(lines@[j as int], expected_thread_id@, provider@));
                    return Err(e);
                },
                None => {},
            }
        }
        j = j + 1;
    }
    Ok(())
}


/// Two values alike: equal, or texts with the same content.
pub open spec fn alike(x: JsonValue, y: JsonValue) -> bool {
    x == y || (x matches JsonValue::Text(s) && y matches JsonValue::Text(u) && s@ == u@)
}

/// Entries alike at every position but those in `d`: same number, same keys, alike values.
pub open spec fn entries_alike_except(a: Seq<(String, JsonValue)>, b: Seq<(String, JsonValue)>, d: Set<int>) -> bool {
    &&& a.len() == b.len()
    &&& forall|j: int| 0 <= j < a.len() ==> (#[trigger] a[j]).0@ == b[j].0@
    &&& forall|j: int| 0 <= j < a.len() && !d.contains(j) ==> alike(#[trigger] a[j].1, b[j].1)
}

proof fn lemma_key_index_same(a: Seq<(String, JsonValue)>, b: Seq<(String, JsonValue)>, key: Seq<char>)
    requires
        a.len() == b.len(),
        forall|j: int| 0 <= j < a.len() ==> (#[trigger] a[j]).0@ == b[j].0@,
    ensures
        key_index(a, key) == key_index(b, key),
    decreases a.len(),
{
    if a.len() > 0 && a[0].0@ != key {
        let (ta, tb) = (a.drop_first(), b.drop_first());
        assert forall|j: int| 0 <= j < ta.len() implies (#[trigger] ta[j]).0@ == tb[j].0@ by {
            assert(ta[j] == a[j + 1] && tb[j] == b[j + 1]);
        }
        lemma_key_index_same(ta, tb, key);
    }
}

proof fn lemma_key_index_extended(o: Seq<(String, JsonValue)>, n: Seq<(String, JsonValue)>, key: Seq<char>)
    requires
        o.len() <= n.len(),
        forall|j: int| 0 <= j < o.len() ==> (#[trigger] n[j]).0@ == o[j].0@,
    ensures
        key_index(o, key) >= 0 ==> key_index(n, key) == key_index(o, key),
        key_index(o, key) < 0 ==> key_index(n, key) < 0 || key_index(n, key) >= o.len(),
    decreases o.len(),
{
    crate::payload::lemma_key_index(n, key);
    if o.len() > 0 && o[0].0@ != key {
        let (to, tn) = (o.drop_first(), n.drop_first());
        assert forall|j: int| 0 <= j < to.len() implies (#[trigger] tn[j]).0@ == to[j].0@ by {
            assert(to[j] == o[j + 1] && tn[j] == n[j + 1]);
        }
        lemma_key_index_extended(to, tn, key);
    }
}

proof fn lemma_text_set_keys(o: Seq<(String, JsonValue)>, n: Seq<(String, JsonValue)>, key: Seq<char>, t: Seq<char>)
    requires
        text_set(o, n, key, t),
    ensures
        o.len() <= n.len(),
        forall|j: int| 0 <= j < o.len() ==> (#[trigger] n[j]).0@ == o[j].0@,
{
    crate::payload::lemma_key_index(o, key);
}

proof fn lemma_text_set_alike(
    o1: Seq<(String, JsonValue)>,
    o2: Seq<(String, JsonValue)>,
    n1: Seq<(String, JsonValue)>,
    n2: Seq<(String, JsonValue)>,
    key: Seq<char>,
    t: Seq<char>,
    d: Set<int>,
)
    requires
        entries_alike_except(o1, o2, d),
        text_set(o1, n1, key, t),
        text_set(o2, n2, key, t),
    ensures
        entries_alike_except(n1, n2, d.remove(key_index(o1, key))),
{
    lemma_key_index_same(o1, o2, key);
    crate::payload::lemma_key_index(o1, key);
    let k = key_index(o1, key);
    let e = d.remove(k);
    if k >= 0 {
        assert forall|j: int| 0 <= j < n1.len() implies (#[trigger] n1[j]).0@ == n2[j].0@ by {
            if j != k {
                assert(n1[j] == o1[j] && n2[j] == o2[j]);
            }
        }
        assert forall|j: int| 0 <= j < n1.len() && !e.contains(j) implies alike(#[trigger] n1[j].1, n2[j].1) by {
            if j != k {
                assert(n1[j] == o1[j] && n2[j] == o2[j]);
            }
        }
    } else {
        assert forall|j: int| 0 <= j < n1.len() implies (#[trigger] n1[j]).0@ == n2[j].0@ by {
            if j < o1.len() {
                assert(n1[j] == o1[j] && n2[j] == o2[j]);
            }
        }
        assert forall|j: int| 0 <= j < n1.len() && !e.contains(j) implies alike(#[trigger] n1[j].1, n2[j].1) by {
            if j < o1.len() {
                assert(n1[j] == o1[j] && n2[j] == o2[j]);
            }
        }
    }
}

/// The content compared is the same whichever thread and provider a rollout names: two
/// `session_meta` payloads with the same keys and the same values but for `id`,
/// `session_id` and `model_provider` are alike once set aside for comparison, the
/// placeholders standing in the same places.
pub proof fn law_comparison_ignores_thread_and_provider(
    p1: Seq<(String, JsonValue)>,
    p2: Seq<(String, JsonValue)>,
    q1: Seq<(String, JsonValue)>,
    q2: Seq<(String, JsonValue)>,
)
    requires
        p1.len() == p2.len(),
        forall|j: int| 0 <= j < p1.len() ==> (#[trigger] p1[j]).0@ == p2[j].0@,
        forall|j: int|
            0 <= j < p1.len() && j != key_index(p1, "id"@) && j != key_index(p1, "session_id"@) && j
                != key_index(p1, "model_provider"@) ==> #[trigger] p1[j].1 == p2[j].1,
        payload_normalized(p1, q1),
        payload_normalized(p2, q2),
    ensures
        q1.len() == q2.len(),
        forall|j: int| 0 <= j < q1.len() ==> (#[trigger] q1[j]).0@ == q2[j].0@ && alike(q1[j].1, q2[j].1),
{
    let (a1, b1) = choose|a: Seq<(String, JsonValue)>, b: Seq<(String, JsonValue)>| #[trigger] placeholder_steps(p1, a, b, q1);
    let (a2, b2) = choose|a: Seq<(String, JsonValue)>, b: Seq<(String, JsonValue)>| #[trigger] placeholder_steps(p2, a, b, q2);
    let ki = key_index(p1, "id"@);
    let ks = key_index(p1, "session_id"@);
    let kp = key_index(p1, "model_provider"@);
    let d0 = set![ki, ks, kp];
    assert(entries_alike_except(p1, p2, d0));
    lemma_key_index_same(p1, p2, "id"@);
    // the `id` step
    let d1 = if ki >= 0 {
        lemma_text_set_alike(p1, p2, a1, a2, "id"@, thread_placeholder(), d0);
        lemma_text_set_keys(p1, a1, "id"@, thread_placeholder());
        crate::payload::lemma_key_index(p1, "id"@);
        d0.remove(ki)
    } else {
        d0
    };
    assert(entries_alike_except(a1, a2, d1));
    assert(a1.len() == p1.len());
    assert(forall|j: int| 0 <= j < p1.len() ==> (#[trigger] a1[j]).0@ == p1[j].0@);
    lemma_key_index_extended(p1, a1, "session_id"@);
    lemma_key_index_same(a1, a2, "session_id"@);
    // the `session_id` step
    let d2 = if key_index(a1, "session_id"@) >= 0 {
        lemma_text_set_alike(a1, a2, b1, b2, "session_id"@, thread_placeholder(), d1);
        lemma_text_set_keys(a1, b1, "session_id"@, thread_placeholder());
        crate::payload::lemma_key_index(a1, "session_id"@);
        d1.remove(key_index(a1, "session_id"@))
    } else {
        d1
    };
    assert(entries_alike_except(b1, b2, d2));
    assert(b1.len() == p1.len());
    assert(forall|j: int| 0 <= j < p1.len() ==> (#[trigger] b1[j]).0@ == p1[j].0@);
    lemma_key_index_extended(p1, b1, "model_provider"@);
    // the `model_provider` step
    lemma_text_set_alike(b1, b2, q1, q2, "model_provider"@, provider_placeholder(), d2);
    let d3 = d2.remove(key_index(b1, "model_provider"@));
    assert forall|j: int| 0 <= j < q1.len() implies !d3.contains(j) by {}
}

} // verus!
