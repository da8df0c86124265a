//! Choosing the official Codex app-server executable to launch.
use vstd::prelude::*;

use crate::paths::{component_at, file_name, is_sep, join, parent, path_file_name, path_join, path_parent};
use crate::error::AppError;
use crate::payload::{first_present, get_field, key_index, lemma_key_index, text_of, JsonValue};
use crate::platform::Os;
use crate::text::{
    chars_of, eq_ignore_case, has_suffix, lit, lower, lower_vec, opt_chars, replace, replace_all,
    seq_eq, slice_of, string_of, all_ws, is_blank,
};

verus! {

broadcast use vstd::string::group_string_axioms;

/// The filters of a thread listing.
#[derive(Debug, Clone, Default)]
pub struct ThreadListFilters {
    pub model_providers: Option<Vec<String>>,
    pub source_kinds: Option<Vec<String>>,
    pub archived: bool,
}

/// The filters that list the active main threads, of one provider or of all.
pub fn interactive_filters(provider: Option<&str>) -> (r: ThreadListFilters)
    ensures
        match provider {
            Some(p) => r.model_providers matches Some(v) && v@.len() == 1 && v@[0]@ == p@,
            None => r.model_providers is None,
        },
        r.source_kinds matches Some(v) && v@.len() == 2 && v@[0]@ == "cli"@ && v@[1]@ == "vscode"@,
        !r.archived,
{
    let model_providers = match provider {
        Some(p) => {
            let mut v: Vec<String> = Vec::new();
            v.push(p.to_string());
            Some(v)
        },
        None => None,
    };
    let mut kinds: Vec<String> = Vec::new();
    kinds.push("cli".to_string());
    kinds.push("vscode".to_string());
    ThreadListFilters { model_providers, source_kinds: Some(kinds), archived: false }
}

/// The key under which a candidate executable counts once: its path with `/` separators,
/// lower-cased on Windows.
pub open spec fn candidate_key_of(path: Seq<char>, os: Os) -> Seq<char> {
    let v = replace_all(path, seq!['\\'], seq!['/']);
    if os == Os::Windows {
        lower(v)
    } else {
        v
    }
}

pub fn candidate_key(path: &str, os: Os) -> (r: String)
    ensures
        r@ == candidate_key_of(path@, os),
{
    let from: Vec<char> = vec!['\\'];
    let to: Vec<char> = vec!['/'];
    assert(from@ =~= seq!['\\']);
    assert(to@ =~= seq!['/']);
    let v = replace(&chars_of(path), &from, &to);
    match os {
        Os::Windows => string_of(&lower_vec(&v)),
        _ => string_of(&v),
    }
}

/// On Windows, a path through a `WindowsApps` directory (in any ASCII case): the Store's
/// protected install location, which cannot be launched directly.
pub open spec fn protected_path(path: Seq<char>, os: Os) -> bool {
    os == Os::Windows && exists|a: int, b: int|
        component_at(Os::Windows, path, a, b) && lower(#[trigger] path.subrange(a, b)) == lower(
            "WindowsApps"@,
        )
}

proof fn lemma_component_start(s: Seq<char>, a: int, st: int, b: int)
    requires
        component_at(Os::Windows, s, a, b),
        0 <= st < b,
        st == 0 || is_sep(Os::Windows, s[st - 1]),
        forall|j: int| st <= j < b ==> !is_sep(Os::Windows, #[trigger] s[j]),
    ensures
        a == st,
{
    if st < a {
        assert(!is_sep(Os::Windows, s[a - 1]));
    } else if a < st {
        assert(!is_sep(Os::Windows, s[st - 1]));
    }
}

fn has_windows_apps_component(path: &str) -> (r: bool)
    ensures
        r == exists|a: int, b: int|
            component_at(Os::Windows, path@, a, b) && lower(#[trigger] path@.subrange(a, b)) == lower(
                "WindowsApps"@,
            ),
{
    let s = chars_of(path);
    let name = lit("WindowsApps");
    let n = s.len();
    let mut start: Option<usize> = None;
    let mut i: usize = 0;
    while i < n
        invariant
            n == s@.len(),
            s@ == path@,
            name@ == "WindowsApps"@,
            i <= n,
            match start {
                Some(st) => st < i && (st == 0 || is_sep(Os::Windows, s@[st - 1])) && forall|j: int|
                    st <= j < i ==> !is_sep(Os::Windows, #[trigger] s@[j]),
                None => i == 0 || is_sep(Os::Windows, s@[i - 1]),
            },
            forall|a: int, b: int|
                component_at(Os::Windows, s@, a, b) && b < i ==> lower(#[trigger] s@.subrange(a, b))
                    != lower(name@),
        decreases n - i,
    {
        if crate::paths::is_separator(Os::Windows, s[i]) {
            if let Some(st) = start {
                let c = slice_of(&s, st, i);
                if eq_ignore_case(&c, &name) {
                    assert(component_at(Os::Windows, s@, st as int, i as int));
                    return true;
                }
                assert forall|a: int, b: int|
                    component_at(Os::Windows, s@, a, b) && b < i + 1 implies lower(
                    #[trigger] s@.subrange(a, b),
                ) != lower(name@) by {
                    if b == i {
                        lemma_component_start(s@, a, st as int, b);
                    }
                }
            } else {
                assert forall|a: int, b: int|
                    component_at(Os::Windows, s@, a, b) && b < i + 1 implies lower(
                    #[trigger] s@.subrange(a, b),
                ) != lower(name@) by {
                    if b == i {
                        assert(!is_sep(Os::Windows, s@[b - 1]));
                    }
                }
            }
            start = None;
        } else {
            assert forall|a: int, b: int|
                component_at(Os::Windows, s@, a, b) && b < i + 1 implies lower(
                #[trigger] s@.subrange(a, b),
            ) != lower(name@) by {
                if b == i {
                    assert(is_sep(Os::Windows, s@[b]));
                }
            }
            if start.is_none() {
                start = Some(i);
            }
        }
        i = i + 1;
    }
    if let Some(st) = start {
        let c = slice_of(&s, st, n);
        if eq_ignore_case(&c, &name) {
            assert(component_at(Os::Windows, s@, st as int, n as int));
            return true;
        }
        assert forall|a: int, b: int|
            component_at(Os::Windows, s@, a, b) implies lower(#[trigger] s@.subrange(a, b)) != lower(
            name@,
        ) by {
            if b == n {
                lemma_component_start(s@, a, st as int, b);
            }
        }
    } else {
        assert forall|a: int, b: int|
            component_at(Os::Windows, s@, a, b) implies lower(#[trigger] s@.subrange(a, b)) != lower(
            name@,
        ) by {
            if b == n {
                assert(!is_sep(Os::Windows, s@[b - 1]));
            }
        }
    }
    false
}

pub fn is_protected_windows_apps_path(path: &str, os: Os) -> (r: bool)
    ensures
        r == protected_path(path@, os),
{
    match os {
        Os::Windows => has_windows_apps_component(path),
        _ => false,
    }
}

/// The executables to try for a client path: inside a `.app` bundle, next to `ChatGPT.exe`
/// under `resources`, or the path itself.
pub open spec fn executables_for(path: Seq<char>, os: Os) -> Seq<Seq<char>> {
    let name = match file_name(os, path) {
        Some(n) => lower(n),
        None => Seq::<char>::empty(),
    };
    if has_suffix(name, ".app"@) {
        seq![join(os, path, "Contents/Resources/codex"@)]
    } else if name == "chatgpt.exe"@ {
        match parent(os, path) {
            Some(p) => seq![join(os, p, "resources/codex.exe"@)],
            None => seq![],
        }
    } else {
        seq![path]
    }
}

pub open spec fn text_views(v: Seq<String>) -> Seq<Seq<char>> {
    v.map_values(|s: String| s@)
}

pub fn from_app_path(path: &str, os: Os) -> (r: Vec<String>)
    ensures
        text_views(r@) == executables_for(path@, os),
{
    let p = chars_of(path);
    let name = match path_file_name(os, &p) {
        Some(n) => lower_vec(&n),
        None => Vec::new(),
    };
    let mut out: Vec<String> = Vec::new();
    if crate::text::ends_with(&name, &lit(".app")) {
        out.push(string_of(&path_join(os, &p, &lit("Contents/Resources/codex"))));
    } else if seq_eq(&name, &lit("chatgpt.exe")) {
        match path_parent(os, &p) {
            Some(parent_path) => {
                out.push(string_of(&path_join(os, &parent_path, &lit("resources/codex.exe"))));
            },
            None => {},
        }
    } else {
        out.push(path.to_string());
    }
    assert(text_views(out@) =~= executables_for(path@, os));
    out
}

/// The executable name looked for in each `PATH` directory.
pub open spec fn path_executable(os: Os) -> Seq<char> {
    if os == Os::Windows {
        "codex.exe"@
    } else {
        "codex"@
    }
}

/// Where the app-server is looked for, in order: the executables of an explicit client path
/// (unless it is `ChatGPT.exe` itself), the configured executable, the cached binaries on
/// Windows, `codex` in each `PATH` directory, the bundles under `/Applications` on macOS,
/// and on Windows the explicit client path's executables again and the install
/// directories under each known root.
pub open spec fn launch_candidates_of(
    explicit: Option<Seq<char>>,
    configured: Option<Seq<char>>,
    cached: Seq<Seq<char>>,
    path_dirs: Seq<Seq<char>>,
    roots: Seq<Seq<char>>,
    os: Os,
) -> Seq<Seq<char>> {
    let usable = match explicit {
        Some(e) => if all_ws(e) {
            None
        } else {
            Some(e)
        },
        None => None,
    };
    let first = match usable {
        Some(e) => match file_name(os, e) {
            Some(n) => if lower(n) != lower("chatgpt.exe"@) {
                executables_for(e, os)
            } else {
                seq![]
            },
            None => seq![],
        },
        None => seq![],
    };
    let conf = match configured {
        Some(c) => seq![c],
        None => seq![],
    };
    let win_cached = if os == Os::Windows {
        cached
    } else {
        seq![]
    };
    let on_path = path_dirs.map_values(|d: Seq<char>| join(os, d, path_executable(os)));
    let mac = if os == Os::MacOs {
        seq![
            "/Applications/ChatGPT.app/Contents/Resources/codex"@,
            "/Applications/Codex.app/Contents/Resources/codex"@,
        ]
    } else {
        seq![]
    };
    let win_explicit = if os == Os::Windows {
        match usable {
            Some(e) => executables_for(e, os),
            None => seq![],
        }
    } else {
        seq![]
    };
    let win_roots = if os == Os::Windows {
        root_executables(roots)
    } else {
        seq![]
    };
    first + conf + win_cached + on_path + mac + win_explicit + win_roots
}

/// The install locations under each root.
pub open spec fn root_executables(roots: Seq<Seq<char>>) -> Seq<Seq<char>>
    decreases roots.len(),
{
    if roots.len() == 0 {
        seq![]
    } else {
        root_executables(roots.drop_last()) + seq![
            join(Os::Windows, roots.last(), "OpenAI/ChatGPT/resources/codex.exe"@),
            join(Os::Windows, roots.last(), "OpenAI/Codex/resources/codex.exe"@),
        ]
    }
}

fn push_all(out: &mut Vec<String>, items: Vec<String>)
    ensures
        text_views(final(out)@) == text_views(old(out)@) + text_views(items@),
{
    let ghost base = out@;
    let mut i: usize = 0;
    while i < items.len()
        invariant
            i <= items@.len(),
            text_views(out@) == text_views(base) + text_views(items@.take(i as int)),
        decreases items@.len() - i,
    {
        let ghost before = out@;
        out.push(items[i].clone());
        assert(text_views(out@) =~= text_views(before).push(items@[i as int]@));
        assert(items@.take(i + 1) =~= items@.take(i as int).push(items@[i as int]));
        assert(text_views(items@.take(i + 1)) =~= text_views(items@.take(i as int)).push(items@[i as int]@));
        assert(text_views(out@) =~= text_views(base) + text_views(items@.take(i + 1)));
        i = i + 1;
    }
    assert(items@.take(items@.len() as int) =~= items@);
}

/// The places where the app-server is looked for (see [`launch_candidates_of`]).
pub fn launch_candidates(
    explicit: Option<&str>,
    configured: Option<&str>,
    cached: &Vec<String>,
    path_dirs: &Vec<String>,
    roots: &Vec<String>,
    os: Os,
) -> (r: Vec<String>)
    ensures
        text_views(r@) == launch_candidates_of(
            match explicit {
                Some(e) => Some(e@),
                None => None,
            },
            match configured {
                Some(c) => Some(c@),
                None => None,
            },
            text_views(cached@),
            text_views(path_dirs@),
            text_views(roots@),
            os,
        ),
{
    let usable: Option<&str> = match explicit {
        Some(e) => if is_blank(&chars_of(e)) {
            None
        } else {
            Some(e)
        },
        None => None,
    };
    let mut out: Vec<String> = Vec::new();
    assert(text_views(out@) =~= seq![]);
    if let Some(e) = usable {
        match path_file_name(os, &chars_of(e)) {
            Some(n) => {
                if !eq_ignore_case(&n, &lit("chatgpt.exe")) {
                    push_all(&mut out, from_app_path(e, os));
                }
            },
            None => {},
        }
    }
    let ghost p1 = text_views(out@);
    if let Some(c) = configured {
        out.push(c.to_string());
        assert(text_views(out@) =~= p1 + seq![c@]);
    } else {
        assert(text_views(out@) =~= p1 + seq![]);
    }
    let ghost p2 = text_views(out@);
    if os == Os::Windows {
        push_all(&mut out, cached.clone());
    } else {
        assert(text_views(out@) =~= p2 + seq![]);
    }
    let ghost p3 = text_views(out@);
    let exe = match os {
        Os::Windows => lit("codex.exe"),
        _ => lit("codex"),
    };
    let ghost pe = path_executable(os);
    let ghost jm = |d: Seq<char>| join(os, d, pe);
    let mut i: usize = 0;
    while i < path_dirs.len()
        invariant
            i <= path_dirs@.len(),
            exe@ == pe,
            pe == path_executable(os),
            jm == (|d: Seq<char>| join(os, d, pe)),
            text_views(out@) == p3 + text_views(path_dirs@).take(i as int).map_values(jm),
        decreases path_dirs@.len() - i,
    {
        let ghost before = out@;
        out.push(string_of(&path_join(os, &chars_of(path_dirs[i].as_str()), &exe)));
        let ghost d = path_dirs@[i as int]@;
        assert(text_views(out@) =~= text_views(before).push(jm(d)));
        assert(text_views(path_dirs@).take(i + 1) =~= text_views(path_dirs@).take(i as int).push(d));
        assert(text_views(path_dirs@).take(i + 1).map_values(jm) =~= text_views(path_dirs@).take(i as int).map_values(jm).push(jm(d)));
        assert(text_views(out@) =~= p3 + text_views(path_dirs@).take(i + 1).map_values(jm));
        i = i + 1;
    }
    assert(text_views(path_dirs@).take(path_dirs@.len() as int) =~= text_views(path_dirs@));
    let ghost p4 = text_views(out@);
    if os == Os::MacOs {
        out.push("/Applications/ChatGPT.app/Contents/Resources/codex".to_string());
        out.push("/Applications/Codex.app/Contents/Resources/codex".to_string());
        assert(text_views(out@) =~= p4 + seq![
            "/Applications/ChatGPT.app/Contents/Resources/codex"@,
            "/Applications/Codex.app/Contents/Resources/codex"@,
        ]);
    } else {
        assert(text_views(out@) =~= p4 + seq![]);
    }
    let ghost p5 = text_views(out@);
    if os == Os::Windows {
        if let Some(e) = usable {
            push_all(&mut out, from_app_path(e, os));
        } else {
            assert(text_views(out@) =~= p5 + seq![]);
        }
        let ghost p6 = text_views(out@);
        let mut k: usize = 0;
        while k < roots.len()
            invariant
                k <= roots@.len(),
                text_views(out@) == p6 + root_executables(text_views(roots@).take(k as int)),
            decreases roots@.len() - k,
        {
            let ghost before = out@;
            let r = chars_of(roots[k].as_str());
            out.push(string_of(&path_join(Os::Windows, &r, &lit("OpenAI/ChatGPT/resources/codex.exe"))));
            out.push(string_of(&path_join(Os::Windows, &r, &lit("OpenAI/Codex/resources/codex.exe"))));
            let ghost rv = roots@[k as int]@;
            let ghost pair = seq![
                join(Os::Windows, rv, "OpenAI/ChatGPT/resources/codex.exe"@),
                join(Os::Windows, rv, "OpenAI/Codex/resources/codex.exe"@),
            ];
            assert(text_views(out@) =~= text_views(before) + pair);
            assert(text_views(roots@).take(k + 1).drop_last() =~= text_views(roots@).take(k as int));
            assert(text_views(roots@).take(k + 1).last() == rv);
            assert(root_executables(text_views(roots@).take(k + 1)) == root_executables(text_views(roots@).take(k as int)) + pair);
            assert(text_views(out@) =~= p6 + root_executables(text_views(roots@).take(k + 1)));
            k = k + 1;
        }
        assert(text_views(roots@).take(roots@.len() as int) =~= text_views(roots@));
    } else {
        assert(text_views(out@) =~= p5 + seq![] + seq![]);
    }
    proof {
        let ex = match explicit {
            Some(e) => Some(e@),
            None => None,
        };
        let cf = match configured {
            Some(c) => Some(c@),
            None => None,
        };
        assert(text_views(out@) =~= launch_candidates_of(
            ex,
            cf,
            text_views(cached@),
            text_views(path_dirs@),
            text_views(roots@),
            os,
        ));
    }
    out
}

/// The candidates kept: those not in a protected location, each key once (the first).
pub open spec fn selected_candidates(v: Seq<Seq<char>>, os: Os) -> Seq<Seq<char>>
    decreases v.len(),
{
    if v.len() == 0 {
        seq![]
    } else {
        let prev = selected_candidates(v.drop_last(), os);
        let x = v.last();
        if protected_path(x, os) || exists|i: int|
            0 <= i < prev.len() && candidate_key_of(#[trigger] prev[i], os) == candidate_key_of(x, os) {
            prev
        } else {
            prev.push(x)
        }
    }
}

/// Of the candidates that exist as files, those that may be launched, in order and
/// without repeats (see [`selected_candidates`]).
pub fn select_candidates(existing: &Vec<String>, os: Os) -> (r: Vec<String>)
    ensures
        text_views(r@) == selected_candidates(text_views(existing@), os),
{
    let ghost ev = text_views(existing@);
    let mut out: Vec<String> = Vec::new();
    let mut keys: Vec<String> = Vec::new();
    let mut i: usize = 0;
    assert(ev.take(0) =~= seq![]);
    while i < existing.len()
        invariant
            i <= existing@.len(),
            ev == text_views(existing@),
            keys@.len() == out@.len(),
            forall|k: int| 0 <= k < keys@.len() ==> (#[trigger] keys@[k])@ == candidate_key_of(out@[k]@, os),
            text_views(out@) == selected_candidates(ev.take(i as int), os),
        decreases existing@.len() - i,
    {
        let x = &existing[i];
        let ghost prev = text_views(out@);
        proof {
            assert(ev.take(i + 1).drop_last() =~= ev.take(i as int));
            assert(ev.take(i + 1).last() == x@);
        }
        let key = candidate_key(x.as_str(), os);
        let seen = crate::text::contains_text(&keys, &key);
        proof {
            if seen {
                let k = choose|k: int| 0 <= k < keys@.len() && (#[trigger] keys@[k])@ == key@;
                assert(candidate_key_of(prev[k], os) == candidate_key_of(x@, os));
            } else {
                if exists|j: int| 0 <= j < prev.len() && candidate_key_of(#[trigger] prev[j], os) == candidate_key_of(x@, os) {
                    let j = choose|j: int| 0 <= j < prev.len() && candidate_key_of(#[trigger] prev[j], os) == candidate_key_of(x@, os);
                    assert(keys@[j]@ == key@);
                }
            }
        }
        if !is_protected_windows_apps_path(x.as_str(), os) && !seen {
            out.push(x.clone());
            keys.push(key);
            assert(text_views(out@) =~= prev.push(x@));
        }
        i = i + 1;
    }
    assert(ev.take(existing@.len() as int) =~= ev);
    out
}

/// The app-server to launch: the first of the existing candidates that may be launched.
pub fn detect(existing: &Vec<String>, os: Os) -> (r: Option<String>)
    ensures
        match r {
            Some(p) => selected_candidates(text_views(existing@), os).len() > 0 && p@ == selected_candidates(
                text_views(existing@),
                os,
            )[0],
            None => selected_candidates(text_views(existing@), os).len() == 0,
        },
{
    let v = select_candidates(existing, os);
    if v.len() > 0 {
        Some(v[0].clone())
    } else {
        None
    }
}

// ---------------------------------------------------------------------------
// Listing threads page by page
// ---------------------------------------------------------------------------

/// The threads of a `thread/list` page: its `data` (else `threads`) array.
pub open spec fn page_threads(result: JsonValue) -> Option<Seq<JsonValue>> {
    match first_present(result, "data"@, "threads"@) {
        Some(JsonValue::Array(items)) => Some(items@),
        _ => None,
    }
}

/// The cursor of the next page: `nextCursor` (else `next_cursor`), a non-empty text.
pub open spec fn page_cursor(result: JsonValue) -> Option<Seq<char>> {
    match text_of(first_present(result, "nextCursor"@, "next_cursor"@)) {
        Some(c) => if c.len() > 0 {
            Some(c)
        } else {
            None
        },
        None => None,
    }
}

fn entry_position(entries: &Vec<(String, JsonValue)>, key: &str) -> (r: Option<usize>)
    ensures
        match r {
            Some(i) => key_index(entries@, key@) == i as int && i < entries@.len(),
            None => key_index(entries@, key@) == -1,
        },
{
    let mut i: usize = 0;
    assert(entries@.skip(0) =~= entries@);
    while i < entries.len()
        invariant
            i <= entries@.len(),
            key_index(entries@, key@) == if key_index(entries@.skip(i as int), key@) < 0 {
                -1
            } else {
                key_index(entries@.skip(i as int), key@) + i
            },
        decreases entries@.len() - i,
    {
        assert(entries@.skip(i as int).drop_first() =~= entries@.skip(i + 1));
        assert(entries@.skip(i as int)[0] == entries@[i as int]);
        if crate::text::str_eq(entries[i].0.as_str(), key) {
            assert(key_index(entries@.skip(i as int), key@) == 0);
            return Some(i);
        }
        i = i + 1;
    }
    None
}

/// Adds the threads of a `thread/list` page to those listed so far and gives the cursor of
/// the next page, if any. A page without a thread array is an error.
pub fn append_thread_page(result: JsonValue, threads: &mut Vec<JsonValue>) -> (r: Result<Option<String>, AppError>)
    ensures
        match page_threads(result) {
            Some(items) => {
                &&& final(threads)@ == old(threads)@ + items
                &&& r matches Ok(c) && opt_chars(c) == page_cursor(result)
            },
            None => {
                &&& final(threads)@ == old(threads)@
                &&& r matches Err(e) && e is Message && e.text() == "thread/list returned no data array"@
            },
        },
{
    let cursor = {
        let found = match get_field(&result, "nextCursor") {
            Some(x) => Some(x),
            None => get_field(&result, "next_cursor"),
        };
        match found {
            Some(JsonValue::Text(c)) => {
                if crate::text::chars_of(c.as_str()).len() > 0 {
                    Some(c.clone())
                } else {
                    None
                }
            },
            _ => None,
        }
    };
    match result {
        JsonValue::Object(mut entries) => {
            let k = match entry_position(&entries, "data") {
                Some(k) => k,
                None => match entry_position(&entries, "threads") {
                    Some(k) => k,
                    None => {
                        return Err(AppError::Message("thread/list returned no data array".to_string()));
                    },
                },
            };
            proof {
                lemma_key_index(entries@, "data"@);
                lemma_key_index(entries@, "threads"@);
            }
            let (_, value) = entries.remove(k);
            match value {
                JsonValue::Array(mut items) => {
                    threads.append(&mut items);
                    Ok(cursor)
                },
                _ => Err(AppError::Message("thread/list returned no data array".to_string())),
            }
        },
        _ => Err(AppError::Message("thread/list returned no data array".to_string())),
    }
}

pub open spec fn repeated_cursor_text() -> Seq<char> {
    "app-server returned a repeated thread/list cursor"@
}

/// After a page: stop when there is no next cursor; a cursor seen before is an error (the
/// listing would never end); otherwise it is remembered and the next page is asked for.
pub fn next_page_cursor(next: Option<String>, seen: &mut Vec<String>) -> (r: Result<Option<String>, AppError>)
    ensures
        match next {
            None => r == Ok::<Option<String>, AppError>(None) && final(seen)@ == old(seen)@,
            Some(c) => if crate::text::has_text(old(seen)@, c@) {
                &&& r matches Err(e) && e is Message && e.text() == repeated_cursor_text()
                &&& final(seen)@ == old(seen)@
            } else {
                &&& r == Ok::<Option<String>, AppError>(Some(c))
                &&& final(seen)@ == old(seen)@.push(c)
            },
        },
{
    match next {
        None => Ok(None),
        Some(c) => {
            if crate::text::contains_text(seen, &c) {
                return Err(AppError::Message("app-server returned a repeated thread/list cursor".to_string()));
            }
            seen.push(c.clone());
            Ok(Some(c))
        },
    }
}

} // verus!
