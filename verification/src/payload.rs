//! What the session logic reads out of the JSON of a rollout: the `session_meta` payload
//! and the entries of `session_index.jsonl`, held as plain values.
use vstd::prelude::*;

use vstd::utf8::encode_utf8;

use crate::error::AppError;
use crate::models::ThreadSourceKind;
use crate::provider::{digest, hex_of, sha256_of};
use crate::text::{
    all_ws, chars_of, concat, eq_ignore_case, is_blank, lit, lower, opt_chars, str_eq, string_of,
    to_text, trim, trim_by, ws,
};

verus! {

broadcast use vstd::string::group_string_axioms;

/// A JSON value. A number keeps its value only when it is an `i64`, the one reading of a
/// number made here; an object keeps its entries in order.
#[derive(Debug)]
pub enum JsonValue {
    Null,
    Bool(bool),
    Number(Option<i64>),
    /// A number that is no `i64`, as its JSON text.
    OtherNumber(String),
    Text(String),
    Array(Vec<JsonValue>),
    Object(Vec<(String, JsonValue)>),
}

/// The first entry with the key, or -1.
pub open spec fn key_index(entries: Seq<(String, JsonValue)>, key: Seq<char>) -> int
    decreases entries.len(),
{
    if entries.len() == 0 {
        -1
    } else if entries[0].0@ == key {
        0
    } else {
        let k = key_index(entries.drop_first(), key);
        if k < 0 {
            -1
        } else {
            k + 1
        }
    }
}

pub proof fn lemma_key_index(entries: Seq<(String, JsonValue)>, key: Seq<char>)
    ensures
        -1 <= key_index(entries, key) < entries.len(),
        key_index(entries, key) >= 0 ==> entries[key_index(entries, key)].0@ == key,
    decreases entries.len(),
{
    if entries.len() > 0 && entries[0].0@ != key {
        lemma_key_index(entries.drop_first(), key);
    }
}

/// The value under a key of an object (`Value::get` with a key).
pub open spec fn field(v: JsonValue, key: Seq<char>) -> Option<JsonValue> {
    match v {
        JsonValue::Object(entries) => {
            let k = key_index(entries@, key);
            if k < 0 {
                None
            } else {
                Some(entries@[k].1)
            }
        },
        _ => None,
    }
}

/// A value's text, when it is a text (`Value::as_str`).
pub open spec fn text_of(v: Option<JsonValue>) -> Option<Seq<char>> {
    match v {
        Some(JsonValue::Text(s)) => Some(s@),
        _ => None,
    }
}

/// The value at a path of object keys (`Value::pointer` with `/a/b`).
pub open spec fn pointer(v: JsonValue, path: Seq<Seq<char>>) -> Option<JsonValue>
    decreases path.len(),
{
    if path.len() == 0 {
        Some(v)
    } else {
        match field(v, path[0]) {
            Some(c) => pointer(c, path.drop_first()),
            None => None,
        }
    }
}

/// The text under the first of the keys that holds a text.
pub open spec fn first_text_of(v: JsonValue, keys: Seq<Seq<char>>) -> Option<Seq<char>>
    decreases keys.len(),
{
    if keys.len() == 0 {
        None
    } else if text_of(field(v, keys[0])) is Some {
        text_of(field(v, keys[0]))
    } else {
        first_text_of(v, keys.drop_first())
    }
}

pub fn get_field<'a>(v: &'a JsonValue, key: &str) -> (r: Option<&'a JsonValue>)
    ensures
        match r {
            Some(x) => field(*v, key@) == Some(*x),
            None => field(*v, key@) is None,
        },
{
    match v {
        JsonValue::Object(entries) => {
            let mut i: usize = 0;
            assert(entries@.skip(0) =~= entries@);
            while i < entries.len()
                invariant
                    i <= entries@.len(),
                    *v == JsonValue::Object(*entries),
                    key_index(entries@, key@) == if key_index(entries@.skip(i as int), key@) < 0 {
                        -1
                    } else {
                        key_index(entries@.skip(i as int), key@) + i
                    },
                decreases entries@.len() - i,
            {
                assert(entries@.skip(i as int).drop_first() =~= entries@.skip(i + 1));
                assert(entries@.skip(i as int)[0] == entries@[i as int]);
                if str_eq(entries[i].0.as_str(), key) {
                    assert(key_index(entries@.skip(i as int), key@) == 0);
                    return Some(&entries[i].1);
                }
                i = i + 1;
            }
            None
        },
        _ => None,
    }
}

pub fn get_text<'a>(v: &'a JsonValue, key: &str) -> (r: Option<&'a String>)
    ensures
        match r {
            Some(s) => text_of(field(*v, key@)) == Some(s@),
            None => text_of(field(*v, key@)) is None,
        },
{
    match get_field(v, key) {
        Some(JsonValue::Text(s)) => Some(s),
        _ => None,
    }
}

pub fn get_pointer<'a>(v: &'a JsonValue, path: &Vec<&str>) -> (r: Option<&'a JsonValue>)
    ensures
        match r {
            Some(x) => pointer(*v, path@.map_values(|p: &str| p@)) == Some(*x),
            None => pointer(*v, path@.map_values(|p: &str| p@)) is None,
        },
{
    let ghost ps = path@.map_values(|p: &str| p@);
    let mut cur = v;
    let mut i: usize = 0;
    assert(ps.skip(0) =~= ps);
    while i < path.len()
        invariant
            i <= path@.len(),
            ps == path@.map_values(|p: &str| p@),
            pointer(*v, ps) == pointer(*cur, ps.skip(i as int)),
        decreases path@.len() - i,
    {
        assert(ps.skip(i as int).drop_first() =~= ps.skip(i + 1));
        assert(ps.skip(i as int)[0] == path@[i as int]@);
        match get_field(cur, path[i]) {
            Some(c) => {
                cur = c;
            },
            None => return None,
        }
        i = i + 1;
    }
    assert(ps.skip(path@.len() as int) =~= Seq::<Seq<char>>::empty());
    Some(cur)
}

pub fn first_text<'a>(v: &'a JsonValue, keys: &Vec<&str>) -> (r: Option<&'a String>)
    ensures
        match r {
            Some(s) => first_text_of(*v, keys@.map_values(|k: &str| k@)) == Some(s@),
            None => first_text_of(*v, keys@.map_values(|k: &str| k@)) is None,
        },
{
    let ghost ks = keys@.map_values(|k: &str| k@);
    let mut i: usize = 0;
    assert(ks.skip(0) =~= ks);
    while i < keys.len()
        invariant
            i <= keys@.len(),
            ks == keys@.map_values(|k: &str| k@),
            first_text_of(*v, ks) == first_text_of(*v, ks.skip(i as int)),
        decreases keys@.len() - i,
    {
        assert(ks.skip(i as int).drop_first() =~= ks.skip(i + 1));
        assert(ks.skip(i as int)[0] == keys@[i as int]@);
        match get_text(v, keys[i]) {
            Some(s) => return Some(s),
            None => {},
        }
        i = i + 1;
    }
    None
}

// ---------------------------------------------------------------------------
// The source of a thread
// ---------------------------------------------------------------------------

/// How a thread was started, as its `session_meta` payload says: a `thread_source` other
/// than `user` (in any ASCII case) is internal; otherwise `source` decides: `cli` or
/// `vscode` (in any ASCII case), or an object naming a `subagent`, `review` or `compact`
/// source, which is internal.
pub open spec fn source_kind_of(p: JsonValue) -> ThreadSourceKind {
    let ts = text_of(field(p, "thread_source"@));
    if ts is Some && lower(ts->0) != lower("user"@) {
        ThreadSourceKind::Internal
    } else {
        match field(p, "source"@) {
            Some(JsonValue::Text(v)) => if lower(v@) == lower("cli"@) {
                ThreadSourceKind::Cli
            } else if lower(v@) == lower("vscode"@) {
                ThreadSourceKind::Vscode
            } else {
                ThreadSourceKind::Unknown
            },
            Some(JsonValue::Object(entries)) => if key_index(entries@, "subagent"@) >= 0
                || key_index(entries@, "review"@) >= 0 || key_index(entries@, "compact"@) >= 0 {
                ThreadSourceKind::Internal
            } else {
                ThreadSourceKind::Unknown
            },
            _ => ThreadSourceKind::Unknown,
        }
    }
}

fn has_key(v: &JsonValue, key: &str) -> (r: bool)
    ensures
        r == (field(*v, key@) is Some),
{
    get_field(v, key).is_some()
}

pub fn classify_source(payload: &JsonValue) -> (r: ThreadSourceKind)
    ensures
        r == source_kind_of(*payload),
{
    match get_text(payload, "thread_source") {
        Some(t) => {
            if !eq_ignore_case(&chars_of(t.as_str()), &lit("user")) {
                return ThreadSourceKind::Internal;
            }
        },
        None => {},
    }
    match get_field(payload, "source") {
        Some(JsonValue::Text(v)) => {
            let c = chars_of(v.as_str());
            if eq_ignore_case(&c, &lit("cli")) {
                ThreadSourceKind::Cli
            } else if eq_ignore_case(&c, &lit("vscode")) {
                ThreadSourceKind::Vscode
            } else {
                ThreadSourceKind::Unknown
            }
        },
        Some(source) => {
            match source {
                JsonValue::Object(_) => {
                    if has_key(source, "subagent") || has_key(source, "review") || has_key(
                        source,
                        "compact",
                    ) {
                        ThreadSourceKind::Internal
                    } else {
                        ThreadSourceKind::Unknown
                    }
                },
                _ => ThreadSourceKind::Unknown,
            }
        },
        None => ThreadSourceKind::Unknown,
    }
}

// ---------------------------------------------------------------------------
// Nickname and parent
// ---------------------------------------------------------------------------

/// A text trimmed, kept only when something is left.
pub open spec fn trimmed_nonempty(t: Option<Seq<char>>) -> Option<Seq<char>> {
    match t {
        Some(x) => if trim_by(x, ws()).len() > 0 {
            Some(trim_by(x, ws()))
        } else {
            None
        },
        None => None,
    }
}

fn trimmed_text(t: Option<&String>) -> (r: Option<String>)
    ensures
        opt_chars(r) == trimmed_nonempty(
            match t {
                Some(s) => Some(s@),
                None => None,
            },
        ),
{
    match t {
        Some(s) => {
            let v = trim(&chars_of(s.as_str()));
            if v.len() > 0 {
                Some(string_of(&v))
            } else {
                None
            }
        },
        None => None,
    }
}

pub open spec fn nickname_keys() -> Seq<Seq<char>> {
    seq!["agent_nickname"@, "agentNickname"@]
}

pub open spec fn parent_keys() -> Seq<Seq<char>> {
    seq!["parent_thread_id"@, "parentThreadId"@, "parent_id"@, "parentId"@]
}

pub open spec fn subagent_path() -> Seq<Seq<char>> {
    seq!["source"@, "subagent"@]
}

pub open spec fn thread_spawn_path() -> Seq<Seq<char>> {
    seq!["source"@, "subagent"@, "thread_spawn"@]
}

/// The keys' first text at a path, when the path leads somewhere.
pub open spec fn text_at(p: JsonValue, path: Seq<Seq<char>>, keys: Seq<Seq<char>>) -> Option<Seq<char>> {
    match pointer(p, path) {
        Some(s) => first_text_of(s, keys),
        None => None,
    }
}

/// The subagent's nickname: `agent_nickname` (or `agentNickname`) of the payload, else of
/// `source.subagent.thread_spawn`, else of `source.subagent`; trimmed, and only when not
/// blank.
pub open spec fn agent_nickname_of(p: JsonValue) -> Option<Seq<char>> {
    let ks = nickname_keys();
    trimmed_nonempty(
        if first_text_of(p, ks) is Some {
            first_text_of(p, ks)
        } else if text_at(p, thread_spawn_path(), ks) is Some {
            text_at(p, thread_spawn_path(), ks)
        } else {
            text_at(p, subagent_path(), ks)
        },
    )
}

/// The parent thread: the first of `parent_thread_id`, `parentThreadId`, `parent_id`,
/// `parentId` in the payload, else in `source.subagent`; trimmed, and only when not blank.
pub open spec fn parent_thread_of(p: JsonValue) -> Option<Seq<char>> {
    let ks = parent_keys();
    trimmed_nonempty(
        if first_text_of(p, ks) is Some {
            first_text_of(p, ks)
        } else {
            text_at(p, subagent_path(), ks)
        },
    )
}

fn text_at_path<'a>(p: &'a JsonValue, path: &Vec<&str>, keys: &Vec<&str>) -> (r: Option<&'a String>)
    ensures
        match r {
            Some(s) => text_at(*p, path@.map_values(|x: &str| x@), keys@.map_values(|k: &str| k@))
                == Some(s@),
            None => text_at(*p, path@.map_values(|x: &str| x@), keys@.map_values(|k: &str| k@)) is None,
        },
{
    match get_pointer(p, path) {
        Some(s) => first_text(s, keys),
        None => None,
    }
}

pub fn explicit_agent_nickname(payload: &JsonValue) -> (r: Option<String>)
    ensures
        opt_chars(r) == agent_nickname_of(*payload),
{
    let keys: Vec<&str> = vec!["agent_nickname", "agentNickname"];
    let spawn: Vec<&str> = vec!["source", "subagent", "thread_spawn"];
    let sub: Vec<&str> = vec!["source", "subagent"];
    assert(keys@.map_values(|k: &str| k@) =~= nickname_keys());
    assert(spawn@.map_values(|k: &str| k@) =~= thread_spawn_path());
    assert(sub@.map_values(|k: &str| k@) =~= subagent_path());
    let found = match first_text(payload, &keys) {
        Some(t) => Some(t),
        None => match text_at_path(payload, &spawn, &keys) {
            Some(t) => Some(t),
            None => text_at_path(payload, &sub, &keys),
        },
    };
    trimmed_text(found)
}

pub fn explicit_parent_thread_id(payload: &JsonValue) -> (r: Option<String>)
    ensures
        opt_chars(r) == parent_thread_of(*payload),
{
    let keys: Vec<&str> = vec!["parent_thread_id", "parentThreadId", "parent_id", "parentId"];
    let sub: Vec<&str> = vec!["source", "subagent"];
    assert(keys@.map_values(|k: &str| k@) =~= parent_keys());
    assert(sub@.map_values(|k: &str| k@) =~= subagent_path());
    let found = match first_text(payload, &keys) {
        Some(t) => Some(t),
        None => text_at_path(payload, &sub, &keys),
    };
    trimmed_text(found)
}

// ---------------------------------------------------------------------------
// Entries of the session index
// ---------------------------------------------------------------------------

/// What `chrono` gives as RFC 3339 text for a time in milliseconds since the epoch, or none
/// when the time is out of its range.
pub uninterp spec fn rfc3339_millis(ms: int) -> Option<Seq<char>>;

/// What `chrono` gives as RFC 3339 text for a time in seconds since the epoch, or none when
/// the time is out of its range.
pub uninterp spec fn rfc3339_seconds(s: int) -> Option<Seq<char>>;

/// `DateTime::<Utc>::from_timestamp_millis`, written with `to_rfc3339`.
#[verifier::external_body]
fn millis_rfc3339(ms: i64) -> (r: Option<String>)
    ensures
        opt_chars(r) == rfc3339_millis(ms as int),
{
    match chrono::DateTime::<chrono::Utc>::from_timestamp_millis(ms) {
        Some(t) => Some(t.to_rfc3339()),
        None => None,
    }
}

/// `DateTime::<Utc>::from_timestamp` (no nanoseconds), written with `to_rfc3339`.
#[verifier::external_body]
fn seconds_rfc3339(s: i64) -> (r: Option<String>)
    ensures
        opt_chars(r) == rfc3339_seconds(s as int),
{
    match chrono::DateTime::<chrono::Utc>::from_timestamp(s, 0) {
        Some(t) => Some(t.to_rfc3339()),
        None => None,
    }
}

/// A numeric timestamp as RFC 3339 text: milliseconds when it is above 10^12, else seconds.
pub open spec fn timestamp_text(t: int) -> Option<Seq<char>> {
    if t > 1_000_000_000_000 {
        rfc3339_millis(t)
    } else {
        rfc3339_seconds(t)
    }
}

pub fn timestamp_to_rfc3339(timestamp: i64) -> (r: Option<String>)
    ensures
        opt_chars(r) == timestamp_text(timestamp as int),
{
    if timestamp > 1_000_000_000_000 {
        millis_rfc3339(timestamp)
    } else {
        seconds_rfc3339(timestamp)
    }
}

pub open spec fn title_keys() -> Seq<Seq<char>> {
    seq!["thread_name"@, "title"@, "name"@]
}

/// The title an index entry gives: the first of `thread_name`, `title`, `name` that is a
/// text, trimmed, when not blank.
pub open spec fn index_title_of(v: JsonValue) -> Option<Seq<char>> {
    trimmed_nonempty(first_text_of(v, title_keys()))
}

pub fn index_title(value: &JsonValue) -> (r: Option<String>)
    ensures
        opt_chars(r) == index_title_of(*value),
{
    let keys: Vec<&str> = vec!["thread_name", "title", "name"];
    assert(keys@.map_values(|k: &str| k@) =~= title_keys());
    trimmed_text(first_text(value, &keys))
}

/// The value under the first of two keys that is present.
pub open spec fn first_present(v: JsonValue, a: Seq<char>, b: Seq<char>) -> Option<JsonValue> {
    if field(v, a) is Some {
        field(v, a)
    } else {
        field(v, b)
    }
}

/// When an index entry says the thread was updated: `updated_at` (else `updatedAt`), as a
/// text, or as a number of seconds or milliseconds.
pub open spec fn index_updated_at_of(v: JsonValue) -> Option<Seq<char>> {
    match first_present(v, "updated_at"@, "updatedAt"@) {
        Some(JsonValue::Text(t)) => Some(t@),
        Some(JsonValue::Number(Some(n))) => timestamp_text(n as int),
        _ => None,
    }
}

pub fn index_updated_at(value: &JsonValue) -> (r: Option<String>)
    ensures
        opt_chars(r) == index_updated_at_of(*value),
{
    let found = match get_field(value, "updated_at") {
        Some(x) => Some(x),
        None => get_field(value, "updatedAt"),
    };
    match found {
        Some(JsonValue::Text(t)) => Some(t.clone()),
        Some(JsonValue::Number(Some(n))) => timestamp_to_rfc3339(*n),
        _ => None,
    }
}

/// The thread an index line is about: `id` (else `thread_id`), when it is a text.
pub open spec fn index_id_of(v: JsonValue) -> Option<Seq<char>> {
    text_of(first_present(v, "id"@, "thread_id"@))
}

pub fn index_entry_id(value: &JsonValue) -> (r: Option<String>)
    ensures
        opt_chars(r) == index_id_of(*value),
{
    let found = match get_field(value, "id") {
        Some(x) => Some(x),
        None => get_field(value, "thread_id"),
    };
    match found {
        Some(JsonValue::Text(t)) => Some(t.clone()),
        _ => None,
    }
}

/// The title of a thread: its index entry's title, else its id. Without an entry the id
/// stands as the entry's `thread_name`, so it comes out trimmed.
pub open spec fn thread_title(entry: Option<JsonValue>, thread_id: Seq<char>) -> Seq<char> {
    match entry {
        Some(e) => match index_title_of(e) {
            Some(t) => t,
            None => thread_id,
        },
        None => match trimmed_nonempty(Some(thread_id)) {
            Some(t) => t,
            None => thread_id,
        },
    }
}

pub fn snapshot_title(entry: Option<&JsonValue>, thread_id: &str) -> (r: String)
    ensures
        r@ == thread_title(
            match entry {
                Some(e) => Some(*e),
                None => None,
            },
            thread_id@,
        ),
{
    let t = match entry {
        Some(e) => index_title(e),
        None => {
            let id = thread_id.to_string();
            trimmed_text(Some(&id))
        },
    };
    match t {
        Some(t) => t,
        None => thread_id.to_string(),
    }
}

// ---------------------------------------------------------------------------
// The session_meta line
// ---------------------------------------------------------------------------

/// What a rollout's `session_meta` line says of its thread.
#[derive(Debug)]
pub struct SessionMeta {
    pub thread_id: String,
    pub cwd: Option<String>,
    pub provider_id: Option<String>,
    pub source_kind: ThreadSourceKind,
    pub agent_nickname: Option<String>,
    pub parent_thread_id: Option<String>,
}

/// The first line whose `type` is `session_meta`, or -1.
pub open spec fn meta_index(lines: Seq<JsonValue>) -> int
    decreases lines.len(),
{
    if lines.len() == 0 {
        -1
    } else if text_of(field(lines[0], "type"@)) == Some("session_meta"@) {
        0
    } else {
        let k = meta_index(lines.drop_first());
        if k < 0 {
            -1
        } else {
            k + 1
        }
    }
}

/// The payload of the meta line, or the line itself when it has none.
pub open spec fn payload_of(meta: JsonValue) -> JsonValue {
    match field(meta, "payload"@) {
        Some(p) => p,
        None => meta,
    }
}

/// The thread id of a payload: `id` (else `session_id`), a text that is not blank.
pub open spec fn meta_thread_id(p: JsonValue) -> Option<Seq<char>> {
    match text_of(first_present(p, "id"@, "session_id"@)) {
        Some(t) => if all_ws(t) {
            None
        } else {
            Some(t)
        },
        None => None,
    }
}

pub open spec fn no_meta_text(rollout_path: Seq<char>) -> Seq<char> {
    rollout_path + " has no session_meta"@
}

pub open spec fn no_thread_id_text() -> Seq<char> {
    "session_meta has no thread id"@
}

fn find_meta(lines: &Vec<JsonValue>) -> (r: Option<usize>)
    ensures
        match r {
            Some(i) => meta_index(lines@) == i as int && i < lines@.len(),
            None => meta_index(lines@) == -1,
        },
{
    let mut i: usize = 0;
    assert(lines@.skip(0) =~= lines@);
    while i < lines.len()
        invariant
            i <= lines@.len(),
            meta_index(lines@) == if meta_index(lines@.skip(i as int)) < 0 {
                -1
            } else {
                meta_index(lines@.skip(i as int)) + i
            },
        decreases lines@.len() - i,
    {
        assert(lines@.skip(i as int).drop_first() =~= lines@.skip(i + 1));
        assert(lines@.skip(i as int)[0] == lines@[i as int]);
        let is_meta = match get_text(&lines[i], "type") {
            Some(t) => str_eq(t.as_str(), "session_meta"),
            None => false,
        };
        if is_meta {
            return Some(i);
        }
        i = i + 1;
    }
    None
}

/// Reads a rollout's parsed lines: the first `session_meta` line's payload gives the thread
/// id (which it must have), project, provider, source, nickname and parent.
/// `rollout_path` names the file in the error.
pub fn session_meta_of(lines: &Vec<JsonValue>, rollout_path: &str) -> (r: Result<SessionMeta, AppError>)
    ensures
        ({
            let k = meta_index(lines@);
            let p = payload_of(lines@[k]);
            match r {
                Err(e) => e is InvalidSession && if k < 0 {
                    e.text() == no_meta_text(rollout_path@)
                } else {
                    meta_thread_id(p) is None && e.text() == no_thread_id_text()
                },
                Ok(m) => {
                    &&& k >= 0
                    &&& meta_thread_id(p) == Some(m.thread_id@)
                    &&& opt_chars(m.cwd) == text_of(field(p, "cwd"@))
                    &&& opt_chars(m.provider_id) == text_of(field(p, "model_provider"@))
                    &&& m.source_kind == source_kind_of(p)
                    &&& opt_chars(m.agent_nickname) == agent_nickname_of(p)
                    &&& opt_chars(m.parent_thread_id) == parent_thread_of(p)
                },
            }
        }),
{
    let k = match find_meta(lines) {
        Some(k) => k,
        None => {
            return Err(
                AppError::InvalidSession(to_text(&concat(&chars_of(rollout_path), &lit(" has no session_meta")))),
            );
        },
    };
    let meta = &lines[k];
    let payload = match get_field(meta, "payload") {
        Some(p) => p,
        None => meta,
    };
    let id = match get_field(payload, "id") {
        Some(x) => Some(x),
        None => get_field(payload, "session_id"),
    };
    let thread_id = match id {
        Some(JsonValue::Text(t)) => {
            if is_blank(&chars_of(t.as_str())) {
                return Err(AppError::InvalidSession("session_meta has no thread id".to_string()));
            }
            t.clone()
        },
        _ => return Err(AppError::InvalidSession("session_meta has no thread id".to_string())),
    };
    Ok(
        SessionMeta {
            thread_id,
            cwd: match get_text(payload, "cwd") {
                Some(c) => Some(c.clone()),
                None => None,
            },
            provider_id: match get_text(payload, "model_provider") {
                Some(c) => Some(c.clone()),
                None => None,
            },
            source_kind: classify_source(payload),
            agent_nickname: explicit_agent_nickname(payload),
            parent_thread_id: explicit_parent_thread_id(payload),
        },
    )
}

// ---------------------------------------------------------------------------
// Content hash
// ---------------------------------------------------------------------------

/// The bytes hashed for a rollout's content: each normalized line in UTF-8 followed by a
/// newline.
pub open spec fn lines_bytes(lines: Seq<String>) -> Seq<u8>
    decreases lines.len(),
{
    if lines.len() == 0 {
        Seq::empty()
    } else {
        lines_bytes(lines.drop_last()) + encode_utf8(lines.last()@) + seq![10u8]
    }
}

/// The content hash of a rollout: the SHA-256 of its normalized lines, each ended by a
/// newline, in lowercase hexadecimal. The provider and the thread id are normalized out of
/// the lines before, so that a replica and its source hash alike.
pub fn hash_lines(lines: &Vec<String>) -> (r: String)
    ensures
        r@ == hex_of(sha256_of(lines_bytes(lines@))),
{
    let mut bytes: Vec<u8> = Vec::new();
    let mut i: usize = 0;
    while i < lines.len()
        invariant
            i <= lines@.len(),
            bytes@ == lines_bytes(lines@.subrange(0, i as int)),
        decreases lines@.len() - i,
    {
        assert(lines@.subrange(0, i + 1).drop_last() =~= lines@.subrange(0, i as int));
        let line = lines[i].as_str().as_bytes();
        let mut j: usize = 0;
        let ghost start = bytes@;
        while j < line.len()
            invariant
                j <= line@.len(),
                bytes@ == start + line@.subrange(0, j as int),
            decreases line@.len() - j,
        {
            bytes.push(line[j]);
            assert(line@.subrange(0, j + 1) =~= line@.subrange(0, j as int).push(line@[j as int]));
            j = j + 1;
        }
        assert(line@.subrange(0, line@.len() as int) =~= line@);
        bytes.push(10u8);
        i = i + 1;
    }
    assert(lines@.subrange(0, lines@.len() as int) =~= lines@);
    digest(bytes.as_slice())
}

} // verus!
