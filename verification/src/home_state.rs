//! The session index and the global state file of a home, as a sync rewrites them: the
//! caller reads and parses the files; these functions decide what they hold afterwards and
//! lay out the text written.
use vstd::prelude::*;

use crate::error::AppError;
use crate::payload::{field, key_index, JsonValue};
use crate::text::{all_ws, chars_of, concat, is_blank, lit, str_eq, string_of, trim, trim_by, ws};

verus! {

/// Lines as written to a file: each followed by a line feed.
pub open spec fn lines_text(lines: Seq<Seq<char>>) -> Seq<char>
    decreases lines.len(),
{
    if lines.len() == 0 {
        Seq::empty()
    } else {
        lines_text(lines.drop_last()) + lines.last() + seq!['\n']
    }
}

/// The lines of the session index kept or replaced, in order: a line whose entry names
/// `thread_id` (`ids[i]`, from the caller's parse of line `i`) becomes `entry`, a blank
/// line is dropped, every other line is kept.
pub open spec fn index_lines_kept(
    lines: Seq<Seq<char>>,
    ids: Seq<Option<Seq<char>>>,
    entry: Seq<char>,
    thread_id: Seq<char>,
) -> Seq<Seq<char>>
    decreases lines.len(),
{
    if lines.len() == 0 {
        Seq::empty()
    } else {
        let i = lines.len() - 1;
        index_lines_kept(lines.drop_last(), ids.take(i), entry, thread_id) + if ids[i] == Some(
            thread_id,
        ) {
            seq![entry]
        } else if all_ws(lines[i]) {
            Seq::empty()
        } else {
            seq![lines[i]]
        }
    }
}

/// The session index with the entry of `thread_id` in place of its old lines, or added at
/// the end where it had none.
pub open spec fn index_upserted(
    lines: Seq<Seq<char>>,
    ids: Seq<Option<Seq<char>>>,
    entry: Seq<char>,
    thread_id: Seq<char>,
) -> Seq<char> {
    let kept = index_lines_kept(lines, ids, entry, thread_id);
    if ids.contains(Some(thread_id)) {
        lines_text(kept)
    } else {
        lines_text(kept.push(entry))
    }
}

fn push_line(out: &mut Vec<char>, line: &str)
    ensures
        final(out)@ == old(out)@ + line@ + seq!['\n'],
{
    let with = concat(out, &chars_of(line));
    let mut v = with;
    v.push('\n');
    *out = v;
}

/// The text of the session index once the entry of `thread_id` (`entry`, as a line) is
/// written: `lines` are the index's lines and `ids` the thread each names.
pub fn upserted_index(lines: &Vec<String>, ids: &Vec<Option<String>>, entry: &str, thread_id: &str) -> (r: String)
    requires
        ids@.len() == lines@.len(),
    ensures
        r@ == index_upserted(
            lines@.map_values(|l: String| l@),
            ids@.map_values(|o: Option<String>| match o {
                Some(s) => Some(s@),
                None => None,
            }),
            entry@,
            thread_id@,
        ),
{
    let ghost ls = lines@.map_values(|l: String| l@);
    let ghost is = ids@.map_values(|o: Option<String>| match o {
        Some(s) => Some(s@),
        None => None,
    });
    let mut out: Vec<char> = Vec::new();
    let mut replaced = false;
    let mut i: usize = 0;
    while i < lines.len()
        invariant
            i <= lines@.len(),
            ids@.len() == lines@.len(),
            ls == lines@.map_values(|l: String| l@),
            is == ids@.map_values(|o: Option<String>| match o {
                Some(s) => Some(s@),
                None => None,
            }),
            out@ == lines_text(index_lines_kept(ls.take(i as int), is.take(i as int), entry@, thread_id@)),
            replaced == is.take(i as int).contains(Some(thread_id@)),
        decreases lines@.len() - i,
    {
        let ghost before = index_lines_kept(ls.take(i as int), is.take(i as int), entry@, thread_id@);
        proof {
            assert(ls.take(i + 1).drop_last() =~= ls.take(i as int));
            assert(is.take(i + 1).take(i as int) =~= is.take(i as int));
        }
        let names = match &ids[i] {
            Some(s) => str_eq(s.as_str(), thread_id),
            None => false,
        };
        if names {
            push_line(&mut out, entry);
            replaced = true;
            assert(before.push(entry@).drop_last() =~= before);
            assert(lines_text(before.push(entry@)) =~= lines_text(before) + entry@ + seq!['\n']);
            assert(before + seq![entry@] =~= before.push(entry@));
        } else if is_blank(&chars_of(lines[i].as_str())) {
            assert(before + Seq::<Seq<char>>::empty() =~= before);
        } else {
            push_line(&mut out, lines[i].as_str());
            assert(before.push(ls[i as int]).drop_last() =~= before);
            assert(lines_text(before.push(ls[i as int])) =~= lines_text(before) + ls[i as int] + seq!['\n']);
            assert(before + seq![ls[i as int]] =~= before.push(ls[i as int]));
        }
        proof {
            assert(is.take(i + 1) =~= is.take(i as int).push(is[i as int]));
            if is.take(i + 1).contains(Some(thread_id@)) && !names {
                let k = choose|k: int| 0 <= k < i + 1 && #[trigger] is.take(i + 1)[k] == Some(thread_id@);
                if k < i {
                    assert(is.take(i as int)[k] == Some(thread_id@));
                }
            }
            if names {
                assert(is.take(i + 1)[i as int] == Some(thread_id@));
            }
        }
        i = i + 1;
    }
    proof {
        assert(ls.take(lines@.len() as int) =~= ls);
        assert(is.take(lines@.len() as int) =~= is);
    }
    if !replaced {
        let ghost kept = index_lines_kept(ls, is, entry@, thread_id@);
        push_line(&mut out, entry);
        assert(kept.push(entry@).drop_last() =~= kept);
        assert(lines_text(kept.push(entry@)) =~= lines_text(kept) + entry@ + seq!['\n']);
    }
    string_of(&out)
}

/// A text cut at its line feeds: the pieces between them, the last one after the last line
/// feed (empty where the text ends with one).
pub open spec fn pieces(s: Seq<char>) -> Seq<Seq<char>>
    decreases s.len(),
{
    if s.len() == 0 {
        seq![Seq::empty()]
    } else {
        let p = pieces(s.drop_last());
        if s.last() == '\n' {
            p.push(Seq::empty())
        } else {
            p.update(p.len() - 1, p.last().push(s.last()))
        }
    }
}

proof fn lemma_pieces_nonempty(s: Seq<char>)
    ensures
        pieces(s).len() >= 1,
    decreases s.len(),
{
    if s.len() > 0 {
        lemma_pieces_nonempty(s.drop_last());
    }
}

pub open spec fn not_blank(l: Seq<char>) -> bool {
    l.len() > 0
}

pub open spec fn trimmed(l: Seq<char>) -> Seq<char> {
    trim_by(l, ws())
}

/// The lines a rollout or index file is read as: its lines, trimmed, without the blank ones.
pub open spec fn read_lines(s: Seq<char>) -> Seq<Seq<char>> {
    pieces(s).map_values(|l: Seq<char>| trimmed(l)).filter(|l: Seq<char>| not_blank(l))
}

/// The non-blank lines of a text, each trimmed.
pub fn text_lines(content: &str) -> (r: Vec<String>)
    ensures
        r@.map_values(|l: String| l@) == read_lines(content@),
{
    let s = chars_of(content);
    let ghost tp = |l: Seq<char>| trimmed(l);
    let ghost np = |l: Seq<char>| not_blank(l);
    let mut done: Vec<String> = Vec::new();
    let mut cur: Vec<char> = Vec::new();
    let mut i: usize = 0;
    proof {
        assert(s@.take(0) =~= Seq::<char>::empty());
        assert(pieces(s@.take(0)).drop_last() =~= Seq::<Seq<char>>::empty());
        assert(done@.map_values(|l: String| l@) =~= Seq::<Seq<char>>::empty());
        assert(Seq::<Seq<char>>::empty().map_values(tp).filter(np) =~= Seq::<Seq<char>>::empty());
    }
    while i < s.len()
        invariant
            i <= s@.len(),
            s@ == content@,
            tp == (|l: Seq<char>| trimmed(l)),
            np == (|l: Seq<char>| not_blank(l)),
            pieces(s@.take(i as int)).len() >= 1,
            cur@ == pieces(s@.take(i as int)).last(),
            done@.map_values(|l: String| l@) == pieces(s@.take(i as int)).drop_last().map_values(tp).filter(np),
        decreases s@.len() - i,
    {
        let ghost p0 = pieces(s@.take(i as int));
        proof {
            assert(s@.take(i + 1).drop_last() =~= s@.take(i as int));
            assert(s@.take(i + 1).last() == s@[i as int]);
            lemma_pieces_nonempty(s@.take(i + 1));
        }
        if s[i] == '\n' {
            let t = trim(&cur);
            proof {
                assert(pieces(s@.take(i + 1)) == p0.push(Seq::empty()));
                assert(p0.push(Seq::empty()).drop_last() =~= p0);
                assert(p0 =~= p0.drop_last().push(p0.last()));
                assert(p0.drop_last().push(p0.last()).map_values(tp) =~= p0.drop_last().map_values(tp).push(tp(p0.last())));
                p0.drop_last().map_values(tp).lemma_filter_push(tp(p0.last()), np);
            }
            if t.len() > 0 {
                let ghost before = done@.map_values(|l: String| l@);
                done.push(string_of(&t));
                assert(done@.map_values(|l: String| l@) =~= before.push(t@));
            }
            cur = Vec::new();
        } else {
            proof {
                assert(pieces(s@.take(i + 1)) == p0.update(p0.len() - 1, p0.last().push(s@[i as int])));
                assert(p0.update(p0.len() - 1, p0.last().push(s@[i as int])).drop_last() =~= p0.drop_last());
            }
            cur.push(s[i]);
        }
        i = i + 1;
    }
    let ghost p = pieces(s@.take(i as int));
    proof {
        assert(s@.take(i as int) =~= s@);
        assert(p =~= p.drop_last().push(p.last()));
        assert(p.drop_last().push(p.last()).map_values(tp) =~= p.drop_last().map_values(tp).push(tp(p.last())));
        p.drop_last().map_values(tp).lemma_filter_push(tp(p.last()), np);
    }
    let t = trim(&cur);
    if t.len() > 0 {
        let ghost before = done@.map_values(|l: String| l@);
        done.push(string_of(&t));
        assert(done@.map_values(|l: String| l@) =~= before.push(t@));
    }
    assert(p.map_values(tp) =~= pieces(content@).map_values(|l: Seq<char>| trimmed(l)));
    done
}

/// Lines written out as a file's text, each ended by a line feed.
pub fn text_of_lines(lines: &Vec<String>) -> (r: String)
    ensures
        r@ == lines_text(lines@.map_values(|l: String| l@)),
{
    let ghost ls = lines@.map_values(|l: String| l@);
    let mut out: Vec<char> = Vec::new();
    let mut i: usize = 0;
    while i < lines.len()
        invariant
            i <= lines@.len(),
            ls == lines@.map_values(|l: String| l@),
            out@ == lines_text(ls.take(i as int)),
        decreases lines@.len() - i,
    {
        proof {
            assert(ls.take(i + 1).drop_last() =~= ls.take(i as int));
        }
        push_line(&mut out, lines[i].as_str());
        i = i + 1;
    }
    assert(ls.take(lines@.len() as int) =~= ls);
    string_of(&out)
}

// ---------------------------------------------------------------------------
// The global state's project lists
// ---------------------------------------------------------------------------

/// The lists of the global state that name the projects the client shows.
pub open spec fn project_keys() -> Seq<Seq<char>> {
    seq!["project-order"@, "electron-saved-workspace-roots"@]
}

pub open spec fn not_object_text() -> Seq<char> {
    "global state is not a JSON object"@
}

pub open spec fn not_array_text(key: Seq<char>) -> Seq<char> {
    "global state "@ + key + " is not an array"@
}

/// The list holds the text `c`.
pub open spec fn lists_text(items: Seq<JsonValue>, c: Seq<char>) -> bool {
    exists|j: int| 0 <= j < items.len() && (#[trigger] items[j] matches JsonValue::Text(t) && t@ == c)
}

/// `new` is `old` with the project `c` in the list under `key`: the list is added (empty)
/// where absent, and `c` appended to it where it does not hold it yet; every other entry
/// is kept. `key`'s value must be a list.
pub open spec fn project_listed(old: Seq<(String, JsonValue)>, new: Seq<(String, JsonValue)>, key: Seq<char>, c: Seq<char>) -> bool {
    let k = key_index(old, key);
    if k >= 0 {
        &&& old[k].1 matches JsonValue::Array(a)
        &&& new.len() == old.len()
        &&& forall|j: int| 0 <= j < old.len() && j != k ==> new[j] == old[j]
        &&& new[k].0 == old[k].0
        &&& new[k].1 matches JsonValue::Array(b)
        &&& if lists_text(a@, c) {
            b@ == a@
        } else {
            &&& b@.len() == a@.len() + 1
            &&& b@.take(a@.len() as int) == a@
            &&& b@.last() matches JsonValue::Text(t) && t@ == c
        }
    } else {
        &&& new.len() == old.len() + 1
        &&& forall|j: int| 0 <= j < old.len() ==> new[j] == old[j]
        &&& new[old.len() as int].0@ == key
        &&& new[old.len() as int].1 matches JsonValue::Array(b)
        &&& b@.len() == 1
        &&& b@[0] matches JsonValue::Text(t) && t@ == c
    }
}

/// The key's value is there but is no list.
pub open spec fn not_listing(es: Seq<(String, JsonValue)>, key: Seq<char>) -> bool {
    key_index(es, key) >= 0 && !(es[key_index(es, key)].1 matches JsonValue::Array(_))
}

/// The entries of the global state as read: an object's entries, none for a missing or
/// unreadable file.
pub open spec fn state_entries(state: Option<JsonValue>) -> Seq<(String, JsonValue)> {
    match state {
        Some(JsonValue::Object(es)) => es@,
        _ => Seq::empty(),
    }
}

/// The working directory added, trimmed; empty where there is none.
pub open spec fn trimmed_cwd(cwd: Option<Seq<char>>) -> Seq<char> {
    match cwd {
        Some(t) => trim_by(t, ws()),
        None => Seq::empty(),
    }
}

pub open spec fn opt_str_view(o: Option<&str>) -> Option<Seq<char>> {
    match o {
        Some(t) => Some(t@),
        None => None,
    }
}

/// What adding a project `cwd` to the global state `state` gives (`state` is `None` where
/// the file is missing or unreadable, read as an empty object): nothing to write for a
/// blank or missing `cwd`; an error where the state is no object or a project list is no
/// list; otherwise the state with the trimmed `cwd` in both project lists.
pub open spec fn project_added(state: Option<JsonValue>, cwd: Option<Seq<char>>, r: Result<Option<JsonValue>, AppError>) -> bool {
    let c = trimmed_cwd(cwd);
    let es = state_entries(state);
    if c.len() == 0 {
        r matches Ok(None)
    } else if state is Some && !(state->Some_0 is Object) {
        r matches Err(e) && e is Message && e.text() == not_object_text()
    } else if not_listing(es, project_keys()[0]) {
        r matches Err(e) && e is Message && e.text() == not_array_text(project_keys()[0])
    } else {
        match r {
            Err(e) => e is Message && e.text() == not_array_text(project_keys()[1]) && exists|m: Seq<(String, JsonValue)>|
                #[trigger] project_listed(es, m, project_keys()[0], c) && not_listing(m, project_keys()[1]),
            Ok(Some(JsonValue::Object(out))) => exists|m: Seq<(String, JsonValue)>|
                #[trigger] project_listed(es, m, project_keys()[0], c) && project_listed(m, out@, project_keys()[1], c),
            _ => false,
        }
    }
}

fn find_key(es: &Vec<(String, JsonValue)>, key: &str) -> (r: Option<usize>)
    ensures
        match r {
            Some(k) => k < es@.len() && key_index(es@, key@) == k,
            None => key_index(es@, key@) == -1,
        },
{
    let mut i: usize = 0;
    assert(es@.skip(0) =~= es@);
    while i < es.len()
        invariant
            i <= es@.len(),
            key_index(es@, key@) == if key_index(es@.skip(i as int), key@) < 0 {
                -1
            } else {
                key_index(es@.skip(i as int), key@) + i
            },
        decreases es@.len() - i,
    {
        assert(es@.skip(i as int).drop_first() =~= es@.skip(i + 1));
        assert(es@.skip(i as int)[0] == es@[i as int]);
        if str_eq(es[i].0.as_str(), key) {
            return Some(i);
        }
        i = i + 1;
    }
    assert(es@.skip(i as int).len() == 0);
    None
}

fn holds_text(items: &Vec<JsonValue>, c: &str) -> (r: bool)
    ensures
        r == lists_text(items@, c@),
{
    let mut i: usize = 0;
    while i < items.len()
        invariant
            i <= items@.len(),
            forall|j: int| 0 <= j < i ==> !(#[trigger] items@[j] matches JsonValue::Text(t) && t@ == c@),
        decreases items@.len() - i,
    {
        let found = match &items[i] {
            JsonValue::Text(t) => str_eq(t.as_str(), c),
            _ => false,
        };
        if found {
            return true;
        }
        i = i + 1;
    }
    false
}

/// Adds `c` to the list under `key`; false, with the entries unchanged, where the key's
/// value is no list.
fn list_project(es: &mut Vec<(String, JsonValue)>, key: &str, c: &str) -> (ok: bool)
    ensures
        ok <==> !not_listing(old(es)@, key@),
        ok ==> project_listed(old(es)@, final(es)@, key@, c@),
        !ok ==> final(es)@ == old(es)@,
{
    match find_key(es, key) {
        None => {
            let mut b: Vec<JsonValue> = Vec::new();
            b.push(JsonValue::Text(c.to_string()));
            es.push((key.to_string(), JsonValue::Array(b)));
            true
        },
        Some(k) => {
            let is_list = match &es[k].1 {
                JsonValue::Array(_) => true,
                _ => false,
            };
            if !is_list {
                return false;
            }
            let ghost e0 = es@;
            let (name, value) = es.remove(k);
            match value {
                JsonValue::Array(mut a) => {
                    let ghost a0 = a@;
                    if !holds_text(&a, c) {
                        a.push(JsonValue::Text(c.to_string()));
                        assert(a@.take(a0.len() as int) =~= a0);
                    }
                    es.insert(k, (name, JsonValue::Array(a)));
                    assert(es@ =~= e0.update(k as int, es@[k as int]));
                    true
                },
                other => {
                    es.insert(k, (name, other));
                    assert(false);
                    true
                },
            }
        },
    }
}

/// The global state with the project `cwd` added to its project lists (see
/// [`project_added`]); `None` where there is nothing to write.
pub fn updated_project_index(state: Option<JsonValue>, cwd: Option<&str>) -> (r: Result<Option<JsonValue>, AppError>)
    ensures
        project_added(state, opt_str_view(cwd), r),
{
    let c = match cwd {
        Some(t) => trim(&chars_of(t)),
        None => Vec::new(),
    };
    if c.len() == 0 {
        return Ok(None);
    }
    let c = string_of(&c);
    let ghost was = state;
    let mut es = match state {
        Some(JsonValue::Object(es)) => es,
        None => Vec::new(),
        Some(_) => return Err(AppError::Message("global state is not a JSON object".to_string())),
    };
    let ghost e0 = es@;
    let ghost cs = trimmed_cwd(opt_str_view(cwd));
    proof {
        reveal_strlit("project-order");
        reveal_strlit("electron-saved-workspace-roots");
        if was is None {
            assert(e0 =~= Seq::<(String, JsonValue)>::empty());
        }
        assert(state_entries(was) == e0);
        assert(cs == c@);
    }
    if !list_project(&mut es, "project-order", c.as_str()) {
        let text = concat(&concat(&lit("global state "), &lit("project-order")), &lit(" is not an array"));
        return Err(AppError::Message(string_of(&text)));
    }
    let ghost m = es@;
    if !list_project(&mut es, "electron-saved-workspace-roots", c.as_str()) {
        let text = concat(
            &concat(&lit("global state "), &lit("electron-saved-workspace-roots")),
            &lit(" is not an array"),
        );
        assert(project_listed(state_entries(was), m, project_keys()[0], cs));
        return Err(AppError::Message(string_of(&text)));
    }
    assert(project_listed(state_entries(was), m, project_keys()[0], cs));
    Ok(Some(JsonValue::Object(es)))
}

} // verus!
