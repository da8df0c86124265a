//! Finding the Codex homes of this machine: where candidates come from, how they are told
//! apart, and what is read from each one's configuration.
use vstd::prelude::*;

use crate::models::{DiscoveredConfigProfile, DiscoveredProvider, Profile, ProfileKind};
use crate::payload::{field, get_field, get_text, text_of, JsonValue};
use crate::platform::Os;
use crate::process::stem_of;
use crate::text::{
    all_ws, chars_of, clone_opt, concat, eq_ignore_case, has_prefix, index_of, index_of_char,
    is_blank, is_char, lemma_lex_total, lemma_lex_transitive, less_than,
    lex_lt, lit, lower, lower_vec, opt_chars, replace, replace_all, seq_eq, slice_of, starts_with,
    str_eq, string_of, strip_prefixes, trim_by, trim_char, trim_start_matches,
};

verus! {

broadcast use vstd::string::group_string_axioms;

// ---------------------------------------------------------------------------
// Environment entries and command lines
// ---------------------------------------------------------------------------

/// `KEY=value` split at its first `=`.
pub open spec fn split_assignment(e: Seq<char>) -> Option<(Seq<char>, Seq<char>)> {
    let i = index_of(e, '=');
    if i < e.len() {
        Some((e.take(i), e.skip(i + 1)))
    } else {
        None
    }
}

fn split_at_equals(e: &Vec<char>) -> (r: Option<(Vec<char>, Vec<char>)>)
    ensures
        match r {
            Some((k, v)) => split_assignment(e@) == Some((k@, v@)),
            None => split_assignment(e@) is None,
        },
{
    let i = index_of_char(e, '=');
    if i < e.len() {
        let k = slice_of(e, 0, i);
        let v = slice_of(e, i + 1, e.len());
        assert(k@ =~= e@.take(i as int));
        assert(v@ =~= e@.skip(i + 1));
        Some((k, v))
    } else {
        None
    }
}

/// The value of an environment entry `KEY=value` whose key is `name` in any ASCII case,
/// unless the value is blank.
pub open spec fn env_value(entry: Seq<char>, name: Seq<char>) -> Option<Seq<char>> {
    match split_assignment(entry) {
        Some((k, v)) => if lower(k) == lower(name) && !all_ws(v) {
            Some(v)
        } else {
            None
        },
        None => None,
    }
}

pub fn environment_value(entry: &str, name: &str) -> (r: Option<String>)
    ensures
        opt_chars(r) == env_value(entry@, name@),
{
    match split_at_equals(&chars_of(entry)) {
        Some((k, v)) => {
            if eq_ignore_case(&k, &chars_of(name)) && !is_blank(&v) {
                Some(string_of(&v))
            } else {
                None
            }
        },
        None => None,
    }
}

pub open spec fn unquoted(s: Seq<char>) -> Seq<char> {
    trim_by(s, is_char('"'))
}

/// The home named by `CODEX_HOME=path` or `--codex-home=path` (the key in any ASCII case,
/// possibly written `$env:KEY` or `env:KEY`), without quotes; `None` for an empty path.
pub open spec fn assignment_home(value: Seq<char>) -> Option<Seq<char>> {
    match split_assignment(value) {
        Some((k, p)) => {
            let key = strip_prefixes(strip_prefixes(k, "$env:"@), "env:"@);
            if (lower(key) == "codex_home"@ || lower(key) == "--codex-home"@) && unquoted(p).len()
                > 0 {
                Some(unquoted(p))
            } else {
                None
            }
        },
        None => None,
    }
}

pub fn assignment_codex_home(value: &str) -> (r: Option<String>)
    ensures
        opt_chars(r) == assignment_home(value@),
{
    assignment_home_of(&chars_of(value))
}

fn assignment_home_of(value: &Vec<char>) -> (r: Option<String>)
    ensures
        opt_chars(r) == assignment_home(value@),
{
    match split_at_equals(value) {
        Some((k, p)) => {
            let key = trim_start_matches(&trim_start_matches(&k, &lit("$env:")), &lit("env:"));
            let lk = lower_vec(&key);
            let path = trim_char(&p, '"');
            if (seq_eq(&lk, &lit("codex_home")) || seq_eq(&lk, &lit("--codex-home"))) && path.len()
                > 0 {
                Some(string_of(&path))
            } else {
                None
            }
        },
        None => None,
    }
}

pub open spec fn arg_views(cmd: Seq<String>) -> Seq<Seq<char>> {
    cmd.map_values(|s: String| s@)
}

/// The homes a command line names, from argument `i` on: `CODEX_HOME=...` or
/// `--codex-home=...` arguments, `--codex-home PATH`, and `--env`/`-e` followed by such an
/// assignment or by `CODEX_HOME PATH`.
pub open spec fn homes_from(cmd: Seq<Seq<char>>, i: int) -> Seq<Seq<char>>
    decreases cmd.len() - i,
{
    if i < 0 || i >= cmd.len() {
        seq![]
    } else {
        let v = unquoted(cmd[i]);
        let l = lower(v);
        if assignment_home(v) is Some {
            seq![assignment_home(v)->0] + homes_from(cmd, i + 1)
        } else if l == "--codex-home"@ && i + 1 < cmd.len() {
            seq![unquoted(cmd[i + 1])] + homes_from(cmd, i + 2)
        } else if (l == "--env"@ || l == "-e"@) && i + 1 < cmd.len() {
            let next = unquoted(cmd[i + 1]);
            if assignment_home(next) is Some {
                seq![assignment_home(next)->0] + homes_from(cmd, i + 2)
            } else if lower(next) == lower("CODEX_HOME"@) && i + 2 < cmd.len() {
                seq![unquoted(cmd[i + 2])] + homes_from(cmd, i + 3)
            } else {
                homes_from(cmd, i + 2)
            }
        } else {
            homes_from(cmd, i + 1)
        }
    }
}

/// The Codex homes named on a command line (see [`homes_from`]).
pub fn command_line_codex_homes(command: &Vec<String>) -> (r: Vec<String>)
    ensures
        arg_views(r@) == homes_from(arg_views(command@), 0),
{
    let ghost cmd = arg_views(command@);
    let mut values: Vec<String> = Vec::new();
    let mut index: usize = 0;
    while index < command.len()
        invariant
            cmd == arg_views(command@),
            index <= command@.len() + 1,
            arg_views(values@) + homes_from(cmd, index as int) == homes_from(cmd, 0),
        decreases command@.len() - index,
    {
        let ghost before = values@;
        let ghost i = index as int;
        let v = trim_char(&chars_of(command[index].as_str()), '"');
        let l = lower_vec(&v);
        let env_arg = seq_eq(&l, &lit("--env")) || seq_eq(&l, &lit("-e"));
        match assignment_home_of(&v) {
            Some(path) => {
                values.push(path);
            },
            None => {
                if seq_eq(&l, &lit("--codex-home")) && index + 1 < command.len() {
                    index = index + 1;
                    values.push(string_of(&trim_char(&chars_of(command[index].as_str()), '"')));
                } else if env_arg && index + 1 < command.len() {
                    index = index + 1;
                    let next = trim_char(&chars_of(command[index].as_str()), '"');
                    match assignment_home_of(&next) {
                        Some(path) => {
                            values.push(path);
                        },
                        None => {
                            if eq_ignore_case(&next, &lit("CODEX_HOME")) && index + 1 < command.len() {
                                index = index + 1;
                                values.push(
                                    string_of(&trim_char(&chars_of(command[index].as_str()), '"')),
                                );
                            }
                        },
                    }
                }
            },
        }
        proof {
            assert(cmd[i] == command@[i]@);
            if i + 1 < cmd.len() {
                assert(cmd[i + 1] == command@[i + 1]@);
            }
            if i + 2 < cmd.len() {
                assert(cmd[i + 2] == command@[i + 2]@);
            }
            let added = arg_views(values@).subrange(before.len() as int, values@.len() as int);
            assert(arg_views(values@) =~= arg_views(before) + added);
            assert(homes_from(cmd, i) == added + homes_from(cmd, index + 1));
            assert(arg_views(before) + (added + homes_from(cmd, index + 1)) =~= arg_views(values@)
                + homes_from(cmd, index + 1));
        }
        index = index + 1;
    }
    assert(arg_views(values@) + homes_from(cmd, index as int) =~= arg_views(values@));
    values
}

// ---------------------------------------------------------------------------
// Processes
// ---------------------------------------------------------------------------

/// The processes whose homes are looked at: the CLI, the desktop client and the account
/// switching tools.
pub open spec fn supported_stem(stem: Seq<char>) -> bool {
    stem == "codex"@ || has_prefix(stem, "chatgpt"@) || stem == "cockpit-tools"@ || stem
        == "cockpit tools"@ || stem == "antigravity cockpit"@
}

/// The lower-cased name of a process without `.exe`, when it is one whose homes are looked at.
pub fn supported_process_stem(name: &str) -> (r: Option<String>)
    ensures
        match r {
            Some(s) => s@ == stem_of(name@) && supported_stem(stem_of(name@)),
            None => !supported_stem(stem_of(name@)),
        },
{
    let stem = crate::process::process_stem(&chars_of(name));
    if seq_eq(&stem, &lit("codex")) || starts_with(&stem, &lit("chatgpt")) || seq_eq(
        &stem,
        &lit("cockpit-tools"),
    ) || seq_eq(&stem, &lit("cockpit tools")) || seq_eq(&stem, &lit("antigravity cockpit")) {
        Some(string_of(&stem))
    } else {
        None
    }
}

/// The path kept for restarting the client that a process belongs to: its executable, except
/// on Windows for anything but the desktop client.
pub open spec fn restartable_path(stem: Seq<char>, executable: Option<Seq<char>>, os: Os) -> Option<
    Seq<char>,
> {
    if os == Os::Windows && !has_prefix(stem, "chatgpt"@) {
        None
    } else {
        executable
    }
}

pub fn restartable_process_path(process_stem: &str, executable: Option<&str>, os: Os) -> (r: Option<
    String,
>)
    ensures
        opt_chars(r) == restartable_path(
            process_stem@,
            match executable {
                Some(e) => Some(e@),
                None => None,
            },
            os,
        ),
{
    if os == Os::Windows && !starts_with(&chars_of(process_stem), &lit("chatgpt")) {
        return None;
    }
    match executable {
        Some(e) => Some(e.to_string()),
        None => None,
    }
}

// ---------------------------------------------------------------------------
// Path keys
// ---------------------------------------------------------------------------

/// The key under which a home is known: its canonical path with `/` separators, and
/// lower-cased on Windows.
pub open spec fn path_key(canonical: Seq<char>, os: Os) -> Seq<char> {
    let v = replace_all(canonical, seq!['\\'], seq!['/']);
    if os == Os::Windows {
        lower(v)
    } else {
        v
    }
}

/// The key of a home given its canonical path (see [`path_key`]).
pub fn normalized_path_key(canonical: &str, os: Os) -> (r: String)
    ensures
        r@ == path_key(canonical@, os),
{
    let from: Vec<char> = vec!['\\'];
    let to: Vec<char> = vec!['/'];
    assert(from@ =~= seq!['\\']);
    assert(to@ =~= seq!['/']);
    let v = replace(&chars_of(canonical), &from, &to);
    match os {
        Os::Windows => string_of(&lower_vec(&v)),
        _ => string_of(&v),
    }
}

// ---------------------------------------------------------------------------
// Configuration metadata
// ---------------------------------------------------------------------------

/// What is read from a home's main `config.toml`: the selected profile, the top-level
/// provider, the ids of the `model_providers` table, and each inline profile with its
/// provider (all in the file's order; absent or non-text values are `None`).
pub struct ConfigFacts {
    pub selected_profile: Option<String>,
    pub model_provider: Option<String>,
    pub provider_ids: Vec<String>,
    pub profiles: Vec<(String, Option<String>)>,
}

/// The keys of a table, in order; none where the value is no table.
pub open spec fn table_keys(v: Option<JsonValue>) -> Seq<Seq<char>> {
    match v {
        Some(JsonValue::Object(es)) => es@.map_values(|e: (String, JsonValue)| e.0@),
        _ => Seq::empty(),
    }
}

/// The profiles of a `profiles` table: each name with the `model_provider` text it sets.
pub open spec fn table_profiles(v: Option<JsonValue>) -> Seq<(Seq<char>, Option<Seq<char>>)> {
    match v {
        Some(JsonValue::Object(es)) => es@.map_values(
            |e: (String, JsonValue)| (e.0@, text_of(field(e.1, "model_provider"@))),
        ),
        _ => Seq::empty(),
    }
}

/// What a home's parsed main `config.toml` says of its providers and profiles: the
/// selected `profile`, the top-level `model_provider`, the keys of `model_providers`, and
/// each entry of `profiles` with its provider.
pub fn config_facts_of(main: &JsonValue) -> (r: ConfigFacts)
    ensures
        opt_chars(r.selected_profile) == text_of(field(*main, "profile"@)),
        opt_chars(r.model_provider) == text_of(field(*main, "model_provider"@)),
        r.provider_ids@.len() == table_keys(field(*main, "model_providers"@)).len(),
        forall|j: int| 0 <= j < r.provider_ids@.len() ==> #[trigger] r.provider_ids@[j]@ == table_keys(
            field(*main, "model_providers"@),
        )[j],
        r.profiles@.len() == table_profiles(field(*main, "profiles"@)).len(),
        forall|j: int| 0 <= j < r.profiles@.len() ==> (#[trigger] r.profiles@[j]).0@ == table_profiles(
            field(*main, "profiles"@),
        )[j].0 && opt_chars(r.profiles@[j].1) == table_profiles(field(*main, "profiles"@))[j].1,
{
    let selected_profile = match get_text(main, "profile") {
        Some(t) => Some(t.clone()),
        None => None,
    };
    let model_provider = match get_text(main, "model_provider") {
        Some(t) => Some(t.clone()),
        None => None,
    };
    let mut provider_ids: Vec<String> = Vec::new();
    match get_field(main, "model_providers") {
        Some(JsonValue::Object(es)) => {
            let mut i: usize = 0;
            while i < es.len()
                invariant
                    i <= es@.len(),
                    provider_ids@.len() == i,
                    forall|j: int| 0 <= j < i ==> #[trigger] provider_ids@[j]@ == es@[j].0@,
                decreases es@.len() - i,
            {
                provider_ids.push(es[i].0.clone());
                i = i + 1;
            }
        },
        _ => {},
    }
    let mut profiles: Vec<(String, Option<String>)> = Vec::new();
    match get_field(main, "profiles") {
        Some(JsonValue::Object(es)) => {
            let mut i: usize = 0;
            while i < es.len()
                invariant
                    i <= es@.len(),
                    profiles@.len() == i,
                    forall|j: int| 0 <= j < i ==> (#[trigger] profiles@[j]).0@ == es@[j].0@ && opt_chars(
                        profiles@[j].1,
                    ) == text_of(field(es@[j].1, "model_provider"@)),
                decreases es@.len() - i,
            {
                let provider = match get_text(&es[i].1, "model_provider") {
                    Some(t) => Some(t.clone()),
                    None => None,
                };
                profiles.push((es[i].0.clone(), provider));
                i = i + 1;
            }
        },
        _ => {},
    }
    ConfigFacts { selected_profile, model_provider, provider_ids, profiles }
}

/// A `<name>.config.toml` profile file of a home, with the provider it sets.
pub struct ProfileFile {
    pub name: String,
    pub path: String,
    pub model_provider: Option<String>,
}

/// The providers and profiles a home's configuration names, and the provider in use.
pub struct ConfigMetadata {
    pub active_provider: String,
    pub providers: Vec<DiscoveredProvider>,
    pub config_profiles: Vec<DiscoveredConfigProfile>,
}

pub open spec fn profile_suffix() -> Seq<char> {
    ".config.toml"@
}

/// The profile a file of the home defines: `<name>.config.toml` with a non-empty name.
pub open spec fn profile_file_name(file_name: Seq<char>) -> Option<Seq<char>> {
    let n = file_name.len() - profile_suffix().len();
    if n > 0 && file_name.skip(n) == profile_suffix() && file_name != "config.toml"@ {
        Some(file_name.take(n))
    } else {
        None
    }
}

pub fn profile_name_of_file(file_name: &str) -> (r: Option<String>)
    ensures
        opt_chars(r) == profile_file_name(file_name@),
{
    let f = chars_of(file_name);
    let suffix = lit(".config.toml");
    proof {
        reveal_strlit(".config.toml");
    }
    if f.len() > suffix.len() && crate::text::ends_with(&f, &suffix) && !seq_eq(&f, &lit("config.toml")) {
        let name = slice_of(&f, 0, f.len() - suffix.len());
        assert(f@.skip(f@.len() - suffix@.len()) =~= f@.subrange(f@.len() - suffix@.len(), f@.len() as int));
        assert(name@ =~= f@.take(f@.len() - suffix@.len()));
        Some(string_of(&name))
    } else {
        proof {
            if f@.len() > suffix@.len() && f@.skip(f@.len() - suffix@.len()) == profile_suffix() {
                assert(f@.subrange(f@.len() - suffix@.len(), f@.len() as int) =~= f@.skip(f@.len() - suffix@.len()));
            }
        }
        None
    }
}

/// The provider set at the top of the main configuration, `openai` when unset or blank.
pub open spec fn initial_active(f: ConfigFacts) -> Seq<char> {
    match f.model_provider {
        Some(p) => if all_ws(p@) {
            "openai"@
        } else {
            p@
        },
        None => "openai"@,
    }
}

/// The provider after the inline profiles: the selected profile's, when it sets one.
pub open spec fn inline_active(
    profiles: Seq<(String, Option<String>)>,
    sel: Option<Seq<char>>,
    a: Seq<char>,
) -> Seq<char>
    decreases profiles.len(),
{
    if profiles.len() == 0 {
        a
    } else {
        let prev = inline_active(profiles.drop_last(), sel, a);
        let e = profiles.last();
        if sel == Some(e.0@) && e.1 is Some {
            e.1->0@
        } else {
            prev
        }
    }
}

/// The provider after the profile files: the selected profile file's, when it sets one.
pub open spec fn file_active(files: Seq<ProfileFile>, sel: Option<Seq<char>>, a: Seq<char>) -> Seq<
    char,
>
    decreases files.len(),
{
    if files.len() == 0 {
        a
    } else {
        let prev = file_active(files.drop_last(), sel, a);
        let f = files.last();
        if sel == Some(f.name@) && f.model_provider is Some {
            f.model_provider->0@
        } else {
            prev
        }
    }
}

/// The provider in use: the selected profile's (a file's over an inline one's), else the
/// top-level one, else `openai`.
pub open spec fn active_provider(f: ConfigFacts, files: Seq<ProfileFile>) -> Seq<char> {
    let sel = opt_chars(f.selected_profile);
    file_active(files, sel, inline_active(f.profiles@, sel, initial_active(f)))
}

/// Every (provider, file) pair met, in order: the ids of `model_providers`, the top-level
/// provider, then those of the inline profiles (all from the main file) and of the files.
pub open spec fn provider_mentions(
    main_path: Seq<char>,
    f: ConfigFacts,
    files: Seq<ProfileFile>,
) -> Seq<(Seq<char>, Seq<char>)> {
    f.provider_ids@.map_values(|k: String| (k@, main_path)) + seq![(initial_active(f), main_path)]
        + f.profiles@.filter(|e: (String, Option<String>)| e.1 is Some).map_values(
        |e: (String, Option<String>)| (e.1->0@, main_path),
    ) + files.filter(|p: ProfileFile| p.model_provider is Some).map_values(
        |p: ProfileFile| (p.model_provider->0@, p.path@),
    )
}

/// Each provider once, with the file it was first met in.
pub open spec fn first_mentions(m: Seq<(Seq<char>, Seq<char>)>) -> Seq<(Seq<char>, Seq<char>)>
    decreases m.len(),
{
    if m.len() == 0 {
        seq![]
    } else {
        let prev = first_mentions(m.drop_last());
        if exists|i: int| 0 <= i < prev.len() && (#[trigger] prev[i]).0 == m.last().0 {
            prev
        } else {
            prev.push(m.last())
        }
    }
}

/// The elements whose key comes after `x`'s.
pub open spec fn key_after<T>(x: T, key: spec_fn(T) -> Seq<char>) -> spec_fn(T) -> bool {
    |y: T| lex_lt(key(x), key(y))
}

/// `x` inserted after every element whose key is not after its own.
pub open spec fn insert_by_key<T>(s: Seq<T>, x: T, key: spec_fn(T) -> Seq<char>) -> Seq<T> {
    let j = crate::buckets::first_index(s, key_after(x, key));
    if j < 0 {
        s.push(x)
    } else {
        s.insert(j, x)
    }
}

/// The elements ordered by key, keeping their order among equal keys.
pub open spec fn sort_by_key<T>(l: Seq<T>, key: spec_fn(T) -> Seq<char>) -> Seq<T>
    decreases l.len(),
{
    if l.len() == 0 {
        l
    } else {
        insert_by_key(sort_by_key(l.drop_last(), key), l.last(), key)
    }
}

pub open spec fn provider_view(p: DiscoveredProvider) -> (Seq<char>, Seq<char>, bool) {
    (p.id@, p.source_file@, p.active)
}

pub open spec fn profile_view(p: DiscoveredConfigProfile) -> (Seq<char>, Seq<char>, Option<Seq<char>>, bool) {
    (p.name@, p.source_file@, opt_chars(p.provider_id), p.active)
}

/// The providers of a configuration: each provider met once, with the file it was first met
/// in, marked active when in use, ordered by id.
pub open spec fn providers_of(main_path: Seq<char>, f: ConfigFacts, files: Seq<ProfileFile>) -> Seq<
    (Seq<char>, Seq<char>, bool),
> {
    let a = active_provider(f, files);
    sort_by_key(
        first_mentions(provider_mentions(main_path, f, files)),
        |e: (Seq<char>, Seq<char>)| e.0,
    ).map_values(|e: (Seq<char>, Seq<char>)| (e.0, e.1, e.0 == a))
}

/// The profiles of a configuration: the inline ones, then the files, each marked active when
/// selected, ordered by name (inline ones first among equal names).
pub open spec fn profiles_of(main_path: Seq<char>, f: ConfigFacts, files: Seq<ProfileFile>) -> Seq<
    (Seq<char>, Seq<char>, Option<Seq<char>>, bool),
> {
    let sel = opt_chars(f.selected_profile);
    sort_by_key(
        f.profiles@.map_values(
            |e: (String, Option<String>)| (e.0@, main_path, opt_chars(e.1), sel == Some(e.0@)),
        ) + files.map_values(
            |p: ProfileFile| (p.name@, p.path@, opt_chars(p.model_provider), sel == Some(p.name@)),
        ),
        |e: (Seq<char>, Seq<char>, Option<Seq<char>>, bool)| e.0,
    )
}

pub open spec fn pair_key() -> spec_fn((Seq<char>, Seq<char>)) -> Seq<char> {
    |e: (Seq<char>, Seq<char>)| e.0
}

pub open spec fn profile_key() -> spec_fn((Seq<char>, Seq<char>, Option<Seq<char>>, bool)) -> Seq<char> {
    |e: (Seq<char>, Seq<char>, Option<Seq<char>>, bool)| e.0
}

pub open spec fn pair_views(v: Seq<(String, String)>) -> Seq<(Seq<char>, Seq<char>)> {
    v.map_values(|e: (String, String)| (e.0@, e.1@))
}

/// Pairs ordered by their first text, keeping their order among equal ones.
fn sort_pairs(v: Vec<(String, String)>) -> (r: Vec<(String, String)>)
    ensures
        pair_views(r@) == sort_by_key(pair_views(v@), pair_key()),
{
    let ghost pv = pair_views(v@);
    let mut out: Vec<(String, String)> = Vec::new();
    let mut n: usize = 0;
    assert(pv.take(0) =~= seq![]);
    while n < v.len()
        invariant
            n <= v@.len(),
            pv == pair_views(v@),
            pair_views(out@) == sort_by_key(pv.take(n as int), pair_key()),
        decreases v@.len() - n,
    {
        let x = &v[n];
        let ghost xv = (x.0@, x.1@);
        let xk = chars_of(x.0.as_str());
        let mut j: usize = 0;
        while j < out.len() && !less_than(&xk, &chars_of(out[j].0.as_str()))
            invariant
                j <= out@.len(),
                xk@ == xv.0,
                forall|i: int| 0 <= i < j ==> !(key_after(xv, pair_key()))(#[trigger] pair_views(out@)[i]),
            decreases out@.len() - j,
        {
            j = j + 1;
        }
        proof {
            crate::buckets::lemma_first_index(pair_views(out@), key_after(xv, pair_key()), j as int);
            assert(pv.take(n + 1).drop_last() =~= pv.take(n as int));
            assert(pv.take(n + 1).last() == xv);
        }
        let ghost before = out@;
        if j < out.len() {
            out.insert(j, (x.0.clone(), x.1.clone()));
            assert(pair_views(out@) =~= pair_views(before).insert(j as int, xv));
        } else {
            out.push((x.0.clone(), x.1.clone()));
            assert(pair_views(out@) =~= pair_views(before).push(xv));
        }
        n = n + 1;
    }
    assert(pv.take(v@.len() as int) =~= pv);
    out
}

pub open spec fn profile_views(v: Seq<DiscoveredConfigProfile>) -> Seq<
    (Seq<char>, Seq<char>, Option<Seq<char>>, bool),
> {
    v.map_values(|p: DiscoveredConfigProfile| profile_view(p))
}

/// Profiles ordered by name, keeping their order among equal names.
fn sort_profiles(v: Vec<DiscoveredConfigProfile>) -> (r: Vec<DiscoveredConfigProfile>)
    ensures
        profile_views(r@) == sort_by_key(profile_views(v@), profile_key()),
{
    let ghost pv = profile_views(v@);
    let mut out: Vec<DiscoveredConfigProfile> = Vec::new();
    let mut n: usize = 0;
    assert(pv.take(0) =~= seq![]);
    while n < v.len()
        invariant
            n <= v@.len(),
            pv == profile_views(v@),
            profile_views(out@) == sort_by_key(pv.take(n as int), profile_key()),
        decreases v@.len() - n,
    {
        let x = &v[n];
        let ghost xv = profile_view(*x);
        let xk = chars_of(x.name.as_str());
        let mut j: usize = 0;
        while j < out.len() && !less_than(&xk, &chars_of(out[j].name.as_str()))
            invariant
                j <= out@.len(),
                xk@ == xv.0,
                forall|i: int| 0 <= i < j ==> !(key_after(xv, profile_key()))(#[trigger] profile_views(out@)[i]),
            decreases out@.len() - j,
        {
            j = j + 1;
        }
        proof {
            crate::buckets::lemma_first_index(profile_views(out@), key_after(xv, profile_key()), j as int);
            assert(pv.take(n + 1).drop_last() =~= pv.take(n as int));
            assert(pv.take(n + 1).last() == xv);
        }
        let ghost before = out@;
        let c = DiscoveredConfigProfile {
            name: x.name.clone(),
            source_file: x.source_file.clone(),
            provider_id: clone_opt(&x.provider_id),
            active: x.active,
        };
        if j < out.len() {
            out.insert(j, c);
            assert(profile_views(out@) =~= profile_views(before).insert(j as int, xv));
        } else {
            out.push(c);
            assert(profile_views(out@) =~= profile_views(before).push(xv));
        }
        n = n + 1;
    }
    assert(pv.take(v@.len() as int) =~= pv);
    out
}

fn has_first(v: &Vec<(String, String)>, id: &String) -> (r: bool)
    ensures
        r == exists|i: int| 0 <= i < pair_views(v@).len() && (#[trigger] pair_views(v@)[i]).0 == id@,
{
    let mut i: usize = 0;
    while i < v.len()
        invariant
            i <= v@.len(),
            forall|k: int| 0 <= k < i ==> (#[trigger] pair_views(v@)[k]).0 != id@,
        decreases v@.len() - i,
    {
        if v[i].0 == *id {
            assert(pair_views(v@)[i as int].0 == id@);
            return true;
        }
        i = i + 1;
    }
    false
}

/// What a home's configuration names (see [`active_provider`], [`providers_of`],
/// [`profiles_of`]); `main_path` is the path of its `config.toml`.
pub fn config_metadata(main_path: &str, facts: &ConfigFacts, files: &Vec<ProfileFile>) -> (r:
    ConfigMetadata)
    ensures
        r.active_provider@ == active_provider(*facts, files@),
        r.providers@.map_values(|p: DiscoveredProvider| provider_view(p)) == providers_of(
            main_path@,
            *facts,
            files@,
        ),
        profile_views(r.config_profiles@) == profiles_of(main_path@, *facts, files@),
{
    let ghost sel = opt_chars(facts.selected_profile);
    // The provider in use.
    let initial: String = match &facts.model_provider {
        Some(p) => if is_blank(&chars_of(p.as_str())) {
            "openai".to_string()
        } else {
            p.clone()
        },
        None => "openai".to_string(),
    };
    let mut active = initial.clone();
    let mut i: usize = 0;
    assert(facts.profiles@.take(0) =~= seq![]);
    while i < facts.profiles.len()
        invariant
            i <= facts.profiles@.len(),
            sel == opt_chars(facts.selected_profile),
            active@ == inline_active(facts.profiles@.take(i as int), sel, initial_active(*facts)),
        decreases facts.profiles@.len() - i,
    {
        proof {
            assert(facts.profiles@.take(i + 1).drop_last() =~= facts.profiles@.take(i as int));
        }
        let (name, provider) = &facts.profiles[i];
        let selected = match &facts.selected_profile {
            Some(s) => *s == *name,
            None => false,
        };
        if selected {
            if let Some(p) = provider {
                active = p.clone();
            }
        }
        i = i + 1;
    }
    assert(facts.profiles@.take(facts.profiles@.len() as int) =~= facts.profiles@);
    let ghost after_inline = active@;
    let mut k: usize = 0;
    assert(files@.take(0) =~= seq![]);
    while k < files.len()
        invariant
            k <= files@.len(),
            sel == opt_chars(facts.selected_profile),
            active@ == file_active(files@.take(k as int), sel, after_inline),
        decreases files@.len() - k,
    {
        proof {
            assert(files@.take(k + 1).drop_last() =~= files@.take(k as int));
        }
        let f = &files[k];
        let selected = match &facts.selected_profile {
            Some(s) => *s == f.name,
            None => false,
        };
        if selected {
            if let Some(p) = &f.model_provider {
                active = p.clone();
            }
        }
        k = k + 1;
    }
    assert(files@.take(files@.len() as int) =~= files@);
    // Every provider met, in order.
    let ghost mp = main_path@;
    let mut mentions: Vec<(String, String)> = Vec::new();
    let ghost km = |k: String| (k@, mp);
    let mut a: usize = 0;
    assert(facts.provider_ids@.take(0).map_values(km) =~= seq![]);
    while a < facts.provider_ids.len()
        invariant
            a <= facts.provider_ids@.len(),
            mp == main_path@,
            km == (|k: String| (k@, mp)),
            pair_views(mentions@) == facts.provider_ids@.take(a as int).map_values(km),
        decreases facts.provider_ids@.len() - a,
    {
        let ghost before = mentions@;
        let ghost x = facts.provider_ids@[a as int];
        mentions.push((facts.provider_ids[a].clone(), main_path.to_string()));
        assert(pair_views(mentions@) =~= pair_views(before).push(km(x)));
        assert(facts.provider_ids@.take(a + 1) =~= facts.provider_ids@.take(a as int).push(x));
        assert(facts.provider_ids@.take(a + 1).map_values(km) =~= facts.provider_ids@.take(a as int).map_values(km).push(km(x)));
        a = a + 1;
    }
    assert(facts.provider_ids@.take(facts.provider_ids@.len() as int) =~= facts.provider_ids@);
    let ghost part1 = pair_views(mentions@);
    mentions.push((initial.clone(), main_path.to_string()));
    let ghost part2 = pair_views(mentions@);
    assert(part2 =~= part1 + seq![(initial_active(*facts), mp)]);
    let ghost ip = |e: (String, Option<String>)| e.1 is Some;
    let ghost im = |e: (String, Option<String>)| (e.1->0@, mp);
    let mut b: usize = 0;
    while b < facts.profiles.len()
        invariant
            b <= facts.profiles@.len(),
            ip == (|e: (String, Option<String>)| e.1 is Some),
            im == (|e: (String, Option<String>)| (e.1->0@, mp)),
            mp == main_path@,
            pair_views(mentions@) == part2 + facts.profiles@.take(b as int).filter(ip).map_values(im),
        decreases facts.profiles@.len() - b,
    {
        proof {
            let pre = facts.profiles@.take(b as int);
            assert(facts.profiles@.take(b + 1) =~= pre.push(facts.profiles@[b as int]));
            pre.lemma_filter_push(facts.profiles@[b as int], ip);
        }
        let ghost before = mentions@;
        let ghost x = facts.profiles@[b as int];
        if let Some(p) = &facts.profiles[b].1 {
            mentions.push((p.clone(), main_path.to_string()));
            assert(pair_views(mentions@) =~= pair_views(before).push(im(x)));
            assert(facts.profiles@.take(b + 1).filter(ip) == facts.profiles@.take(b as int).filter(ip).push(x));
            assert(facts.profiles@.take(b + 1).filter(ip).map_values(im) =~= facts.profiles@.take(b as int).filter(ip).map_values(im).push(im(x)));
            assert(pair_views(mentions@) =~= part2 + facts.profiles@.take(b + 1).filter(ip).map_values(im));
        } else {
            assert(pair_views(mentions@) =~= part2 + facts.profiles@.take(b + 1).filter(ip).map_values(im));
        }
        b = b + 1;
    }
    assert(facts.profiles@.take(facts.profiles@.len() as int) =~= facts.profiles@);
    let ghost part3 = pair_views(mentions@);
    let ghost fp = |p: ProfileFile| p.model_provider is Some;
    let ghost fm = |p: ProfileFile| (p.model_provider->0@, p.path@);
    let mut c: usize = 0;
    while c < files.len()
        invariant
            c <= files@.len(),
            fp == (|p: ProfileFile| p.model_provider is Some),
            fm == (|p: ProfileFile| (p.model_provider->0@, p.path@)),
            pair_views(mentions@) == part3 + files@.take(c as int).filter(fp).map_values(fm),
        decreases files@.len() - c,
    {
        proof {
            let pre = files@.take(c as int);
            assert(files@.take(c + 1) =~= pre.push(files@[c as int]));
            pre.lemma_filter_push(files@[c as int], fp);
        }
        let ghost before = mentions@;
        let ghost x = files@[c as int];
        if let Some(p) = &files[c].model_provider {
            mentions.push((p.clone(), files[c].path.clone()));
            assert(pair_views(mentions@) =~= pair_views(before).push(fm(x)));
            assert(files@.take(c + 1).filter(fp) == files@.take(c as int).filter(fp).push(x));
            assert(files@.take(c + 1).filter(fp).map_values(fm) =~= files@.take(c as int).filter(fp).map_values(fm).push(fm(x)));
            assert(pair_views(mentions@) =~= part3 + files@.take(c + 1).filter(fp).map_values(fm));
        } else {
            assert(pair_views(mentions@) =~= part3 + files@.take(c + 1).filter(fp).map_values(fm));
        }
        c = c + 1;
    }
    assert(files@.take(files@.len() as int) =~= files@);
    assert(pair_views(mentions@) =~= provider_mentions(main_path@, *facts, files@));
    // Each provider once.
    let ghost mv = pair_views(mentions@);
    let mut firsts: Vec<(String, String)> = Vec::new();
    let mut d: usize = 0;
    assert(mv.take(0) =~= seq![]);
    while d < mentions.len()
        invariant
            d <= mentions@.len(),
            mv == pair_views(mentions@),
            pair_views(firsts@) == first_mentions(mv.take(d as int)),
        decreases mentions@.len() - d,
    {
        proof {
            assert(mv.take(d + 1).drop_last() =~= mv.take(d as int));
            assert(mv.take(d + 1).last() == mv[d as int]);
        }
        let e = &mentions[d];
        if !has_first(&firsts, &e.0) {
            let ghost before = firsts@;
            firsts.push((e.0.clone(), e.1.clone()));
            assert(pair_views(firsts@) =~= pair_views(before).push(mv[d as int]));
        }
        d = d + 1;
    }
    assert(mv.take(mentions@.len() as int) =~= mv);
    let sorted = sort_pairs(firsts);
    let ghost sv = pair_views(sorted@);
    let mut providers: Vec<DiscoveredProvider> = Vec::new();
    let ghost av = active@;
    let ghost vm = |x: (Seq<char>, Seq<char>)| (x.0, x.1, x.0 == av);
    let ghost pvm = |p: DiscoveredProvider| provider_view(p);
    let mut e: usize = 0;
    assert(sv.take(0).map_values(vm) =~= seq![]);
    while e < sorted.len()
        invariant
            e <= sorted@.len(),
            sv == pair_views(sorted@),
            av == active@,
            vm == (|x: (Seq<char>, Seq<char>)| (x.0, x.1, x.0 == av)),
            pvm == (|p: DiscoveredProvider| provider_view(p)),
            providers@.map_values(pvm) == sv.take(e as int).map_values(vm),
        decreases sorted@.len() - e,
    {
        let ghost before = providers@;
        let np = DiscoveredProvider {
            id: sorted[e].0.clone(),
            source_file: sorted[e].1.clone(),
            active: sorted[e].0 == active,
        };
        assert(pvm(np) == vm(sv[e as int]));
        providers.push(np);
        assert(providers@.map_values(pvm) =~= before.map_values(pvm).push(pvm(np)));
        assert(sv.take(e + 1) =~= sv.take(e as int).push(sv[e as int]));
        assert(sv.take(e + 1).map_values(vm) =~= sv.take(e as int).map_values(vm).push(vm(sv[e as int])));
        e = e + 1;
    }
    assert(sv.take(sorted@.len() as int) =~= sv);
    // Profiles.
    let mut profiles: Vec<DiscoveredConfigProfile> = Vec::new();
    assert(facts.profiles@.take(0).map_values(|x: (String, Option<String>)| (x.0@, mp, opt_chars(x.1), sel == Some(x.0@))) =~= seq![]);
    let ghost pm = |x: (String, Option<String>)| (x.0@, mp, opt_chars(x.1), sel == Some(x.0@));
    let mut g: usize = 0;
    while g < facts.profiles.len()
        invariant
            g <= facts.profiles@.len(),
            mp == main_path@,
            sel == opt_chars(facts.selected_profile),
            pm == (|x: (String, Option<String>)| (x.0@, mp, opt_chars(x.1), sel == Some(x.0@))),
            profile_views(profiles@) == facts.profiles@.take(g as int).map_values(pm),
        decreases facts.profiles@.len() - g,
    {
        let (name, provider) = &facts.profiles[g];
        let selected = match &facts.selected_profile {
            Some(s) => *s == *name,
            None => false,
        };
        let ghost before = profiles@;
        let ghost x = facts.profiles@[g as int];
        let np = DiscoveredConfigProfile {
            name: name.clone(),
            source_file: main_path.to_string(),
            provider_id: clone_opt(provider),
            active: selected,
        };
        assert(profile_view(np) == pm(x));
        profiles.push(np);
        assert(profile_views(profiles@) =~= profile_views(before).push(pm(x)));
        assert(facts.profiles@.take(g + 1) =~= facts.profiles@.take(g as int).push(x));
        assert(facts.profiles@.take(g + 1).map_values(pm) =~= facts.profiles@.take(g as int).map_values(pm).push(pm(x)));
        g = g + 1;
    }
    assert(facts.profiles@.take(facts.profiles@.len() as int) =~= facts.profiles@);
    let ghost inline_part = profile_views(profiles@);
    let ghost qm = |p: ProfileFile| (p.name@, p.path@, opt_chars(p.model_provider), sel == Some(p.name@));
    let mut h: usize = 0;
    while h < files.len()
        invariant
            h <= files@.len(),
            sel == opt_chars(facts.selected_profile),
            qm == (|p: ProfileFile| (p.name@, p.path@, opt_chars(p.model_provider), sel == Some(p.name@))),
            profile_views(profiles@) == inline_part + files@.take(h as int).map_values(qm),
        decreases files@.len() - h,
    {
        let f = &files[h];
        let selected = match &facts.selected_profile {
            Some(s) => *s == f.name,
            None => false,
        };
        let ghost before = profiles@;
        let ghost x = files@[h as int];
        let np = DiscoveredConfigProfile {
            name: f.name.clone(),
            source_file: f.path.clone(),
            provider_id: clone_opt(&f.model_provider),
            active: selected,
        };
        assert(profile_view(np) == qm(x));
        profiles.push(np);
        assert(profile_views(profiles@) =~= profile_views(before).push(qm(x)));
        assert(files@.take(h + 1) =~= files@.take(h as int).push(x));
        assert(files@.take(h + 1).map_values(qm) =~= files@.take(h as int).map_values(qm).push(qm(x)));
        h = h + 1;
    }
    assert(files@.take(files@.len() as int) =~= files@);
    let config_profiles = sort_profiles(profiles);
    ConfigMetadata { active_provider: active, providers, config_profiles }
}

// ---------------------------------------------------------------------------
// Candidates and instances
// ---------------------------------------------------------------------------

/// A directory that may be a Codex home, where it was found, and what is known of it.
pub struct Candidate {
    pub path: String,
    pub source: String,
    pub name_hint: Option<String>,
    pub app_path: Option<String>,
}

/// A Codex home found on this machine.
pub struct DiscoveredInstance {
    pub home: String,
    pub name: String,
    pub kind: ProfileKind,
    pub provider_id: String,
    pub discovery_source: String,
    pub providers: Vec<DiscoveredProvider>,
    pub config_profiles: Vec<DiscoveredConfigProfile>,
    pub app_path: Option<String>,
}

/// The homes found, and how many candidates were looked at.
pub struct DiscoveryScan {
    pub candidates_scanned: usize,
    pub instances: Vec<DiscoveredInstance>,
}

/// Adds a candidate unless its path is empty.
pub fn push_candidate(
    candidates: &mut Vec<Candidate>,
    path: String,
    source: &str,
    name_hint: Option<String>,
    app_path: Option<String>,
)
    ensures
        path@.len() == 0 ==> final(candidates)@ == old(candidates)@,
        path@.len() > 0 ==> final(candidates)@.len() == old(candidates)@.len() + 1
            && final(candidates)@.subrange(0, old(candidates)@.len() as int) == old(candidates)@
            && final(candidates)@.last().path == path && final(candidates)@.last().source@ == source@
            && final(candidates)@.last().name_hint == name_hint && final(candidates)@.last().app_path
            == app_path,
{
    if path.as_str().is_empty() {
        return ;
    }
    let ghost before = candidates@;
    candidates.push(Candidate { path, source: source.to_string(), name_hint, app_path });
    assert(candidates@.subrange(0, before.len() as int) =~= before);
}

pub open spec fn registered_source() -> Seq<char> {
    "已登记实例"@
}

/// The candidates of a discovery: those collected from the machine, then the home of every
/// registered profile, with its name and client path.
pub fn discover(collected: Vec<Candidate>, known_profiles: &Vec<Profile>) -> (r: Vec<Candidate>)
    ensures
        r@.subrange(0, collected@.len() as int) == collected@,
        r@.len() == collected@.len() + known_profiles@.filter(|p: Profile| p.codex_home@.len() > 0).len(),
        forall|k: int|
            0 <= k < r@.len() - collected@.len() ==> {
                let p = known_profiles@.filter(|p: Profile| p.codex_home@.len() > 0)[k];
                let c = #[trigger] r@[collected@.len() + k];
                &&& c.path == p.codex_home
                &&& c.source@ == registered_source()
                &&& c.name_hint == Some(p.name)
                &&& c.app_path == p.app_path
            },
{
    let ghost base = collected@;
    let ghost pred = |p: Profile| p.codex_home@.len() > 0;
    let mut candidates = collected;
    let mut i: usize = 0;
    while i < known_profiles.len()
        invariant
            i <= known_profiles@.len(),
            pred == (|p: Profile| p.codex_home@.len() > 0),
            candidates@.subrange(0, base.len() as int) == base,
            candidates@.len() == base.len() + known_profiles@.take(i as int).filter(pred).len(),
            forall|k: int|
                0 <= k < candidates@.len() - base.len() ==> {
                    let p = known_profiles@.take(i as int).filter(pred)[k];
                    let c = #[trigger] candidates@[base.len() + k];
                    &&& c.path == p.codex_home
                    &&& c.source@ == registered_source()
                    &&& c.name_hint == Some(p.name)
                    &&& c.app_path == p.app_path
                },
        decreases known_profiles@.len() - i,
    {
        let p = &known_profiles[i];
        proof {
            assert(known_profiles@.take(i + 1) =~= known_profiles@.take(i as int).push(*p));
            known_profiles@.take(i as int).lemma_filter_push(*p, pred);
        }
        let ghost before = candidates@;
        push_candidate(&mut candidates, p.codex_home.clone(), "已登记实例", Some(p.name.clone()), clone_opt(&p.app_path));
        proof {
            assert(candidates@.subrange(0, base.len() as int) =~= before.subrange(0, base.len() as int));
            assert forall|k: int| 0 <= k < candidates@.len() - base.len() implies {
                let q = known_profiles@.take(i + 1).filter(pred)[k];
                let c = #[trigger] candidates@[base.len() + k];
                &&& c.path == q.codex_home
                &&& c.source@ == registered_source()
                &&& c.name_hint == Some(q.name)
                &&& c.app_path == q.app_path
            } by {
                if k < before.len() - base.len() {
                    assert(candidates@[base.len() + k] == before[base.len() + k]);
                }
            }
        }
        i = i + 1;
    }
    assert(known_profiles@.take(known_profiles@.len() as int) =~= known_profiles@);
    candidates
}

/// The entries with key `k`, in order.
pub open spec fn with_key(v: Seq<(String, Candidate)>, k: Seq<char>) -> Seq<(String, Candidate)> {
    v.filter(|e: (String, Candidate)| e.0@ == k)
}

pub open spec fn first_hint(v: Seq<(String, Candidate)>) -> Option<String>
    decreases v.len(),
{
    if v.len() == 0 {
        None
    } else {
        let f = first_hint(v.drop_last());
        if f is Some {
            f
        } else {
            v.last().1.name_hint
        }
    }
}

pub open spec fn first_app(v: Seq<(String, Candidate)>) -> Option<String>
    decreases v.len(),
{
    if v.len() == 0 {
        None
    } else {
        let f = first_app(v.drop_last());
        if f is Some {
            f
        } else {
            v.last().1.app_path
        }
    }
}

/// The candidates found under one key merged: the first one, with the first name and the
/// first client path any of them has.
pub open spec fn merged_candidate(v: Seq<(String, Candidate)>, k: Seq<char>) -> Candidate {
    let w = with_key(v, k);
    Candidate {
        path: w[0].1.path,
        source: w[0].1.source,
        name_hint: first_hint(w),
        app_path: first_app(w),
    }
}

pub open spec fn key_present(v: Seq<(String, Candidate)>, k: Seq<char>) -> bool {
    exists|j: int| 0 <= j < v.len() && (#[trigger] v[j]).0@ == k
}

/// Entries in strictly increasing order of key.
pub open spec fn keys_increasing<T>(v: Seq<(String, T)>) -> bool {
    forall|i: int, j: int| 0 <= i < j < v.len() ==> lex_lt((#[trigger] v[i]).0@, (#[trigger] v[j]).0@)
}

/// Entries with distinct keys put in increasing order of key; each entry is kept as it is.
pub fn sort_by_text_key<T>(v: Vec<(String, T)>) -> (r: Vec<(String, T)>)
    requires
        forall|i: int, j: int| 0 <= i < j < v@.len() ==> (#[trigger] v@[i]).0@ != (#[trigger] v@[j]).0@,
    ensures
        keys_increasing(r@),
        r@.len() == v@.len(),
        forall|i: int| 0 <= i < r@.len() ==> v@.contains(#[trigger] r@[i]),
        forall|j: int| 0 <= j < v@.len() ==> r@.contains(#[trigger] v@[j]),
{
    let mut out: Vec<(String, T)> = Vec::new();
    let ghost vs = v@;
    let total = v.len();
    let mut rest = v;
    let mut n: usize = 0;
    assert(vs.len() == total);
    while rest.len() > 0
        invariant
            vs.len() <= usize::MAX,
            n + rest@.len() == vs.len(),
            rest@ == vs.subrange(n as int, vs.len() as int),
            out@.len() == n,
            forall|i: int, j: int| 0 <= i < j < vs.len() ==> (#[trigger] vs[i]).0@ != (#[trigger] vs[j]).0@,
            keys_increasing(out@),
            forall|i: int| 0 <= i < out@.len() ==> exists|j: int| 0 <= j < n && #[trigger] out@[i] == vs[j],
            forall|j: int| 0 <= j < n ==> out@.contains(#[trigger] vs[j]),
        decreases rest@.len(),
    {
        let x = rest.remove(0);
        assert(x == vs[n as int]);
        assert(rest@ =~= vs.subrange(n + 1, vs.len() as int));
        let xk = chars_of(x.0.as_str());
        let mut j: usize = 0;
        while j < out.len() && !less_than(&xk, &chars_of(out[j].0.as_str()))
            invariant
                j <= out@.len(),
                xk@ == x.0@,
                forall|i: int| 0 <= i < j ==> !lex_lt(x.0@, (#[trigger] out@[i]).0@),
            decreases out@.len() - j,
        {
            j = j + 1;
        }
        let ghost old_out = out@;
        proof {
            assert forall|i: int| 0 <= i < j implies lex_lt((#[trigger] old_out[i]).0@, x.0@) by {
                let w = choose|w: int| 0 <= w < n && old_out[i] == vs[w];
                assert(vs[w].0@ != vs[n as int].0@);
                lemma_lex_total(old_out[i].0@, x.0@);
            }
            assert forall|i: int| j <= i < old_out.len() implies lex_lt(x.0@, (#[trigger] old_out[i]).0@) by {
                if i > j {
                    assert(lex_lt(old_out[j as int].0@, old_out[i].0@));
                    lemma_lex_transitive(x.0@, old_out[j as int].0@, old_out[i].0@);
                }
            }
        }
        out.insert(j, x);
        proof {
            let o = out@;
            assert(o == old_out.insert(j as int, x));
            assert forall|a: int, b: int| 0 <= a < b < o.len() implies lex_lt(
                (#[trigger] o[a]).0@,
                (#[trigger] o[b]).0@,
            ) by {
                if a < j && b < j {
                    assert(o[a] == old_out[a] && o[b] == old_out[b]);
                } else if a < j && b == j {
                    assert(o[a] == old_out[a]);
                } else if a < j && b > j {
                    assert(o[a] == old_out[a] && o[b] == old_out[b - 1]);
                } else if a == j {
                    assert(o[b] == old_out[b - 1]);
                } else {
                    assert(o[a] == old_out[a - 1] && o[b] == old_out[b - 1]);
                }
            }
            assert forall|i: int| 0 <= i < o.len() implies exists|w: int|
                0 <= w < n + 1 && #[trigger] o[i] == vs[w] by {
                if i < j {
                    assert(o[i] == old_out[i]);
                } else if i == j {
                    assert(o[i] == vs[n as int]);
                } else {
                    assert(o[i] == old_out[i - 1]);
                }
            }
            assert forall|w: int| 0 <= w < n + 1 implies o.contains(#[trigger] vs[w]) by {
                if w < n {
                    assert(old_out.contains(vs[w]));
                    let i = choose|i: int| 0 <= i < old_out.len() && old_out[i] == vs[w];
                    if i < j {
                        assert(o[i] == vs[w]);
                    } else {
                        assert(o[i + 1] == vs[w]);
                    }
                } else {
                    assert(o[j as int] == vs[w]);
                }
            }
        }
        n = n + 1;
    }
    proof {
        assert forall|i: int| 0 <= i < out@.len() implies vs.contains(#[trigger] out@[i]) by {
            let w = choose|w: int| 0 <= w < n && out@[i] == vs[w];
        }
    }
    out
}

fn find_key<T>(v: &Vec<(String, T)>, k: &String) -> (r: Option<usize>)
    ensures
        match r {
            Some(i) => i < v@.len() && v@[i as int].0@ == k@,
            None => forall|j: int| 0 <= j < v@.len() ==> (#[trigger] v@[j]).0@ != k@,
        },
{
    let mut i: usize = 0;
    while i < v.len()
        invariant
            i <= v@.len(),
            forall|j: int| 0 <= j < i ==> (#[trigger] v@[j]).0@ != k@,
        decreases v@.len() - i,
    {
        if v[i].0 == *k {
            return Some(i);
        }
        i = i + 1;
    }
    None
}

/// The candidates with one entry per key (the key of a candidate's canonical path, see
/// [`normalized_path_key`]), merged (see [`merged_candidate`]) and ordered by key.
pub fn deduplicate_candidates(keyed: Vec<(String, Candidate)>) -> (r: Vec<(String, Candidate)>)
    ensures
        keys_increasing(r@),
        forall|i: int|
            0 <= i < r@.len() ==> key_present(keyed@, (#[trigger] r@[i]).0@) && r@[i].1
                == merged_candidate(keyed@, r@[i].0@),
        forall|j: int| 0 <= j < keyed@.len() ==> key_present(r@, (#[trigger] keyed@[j]).0@),
{
    let ghost v = keyed@;
    let mut acc: Vec<(String, Candidate)> = Vec::new();
    let mut n: usize = 0;
    let mut rest = keyed;
    let total = rest.len();
    assert(v.len() == total);
    while rest.len() > 0
        invariant
            n + rest@.len() == v.len(),
            v.len() <= usize::MAX,
            rest@ == v.subrange(n as int, v.len() as int),
            forall|a: int, b: int| 0 <= a < b < acc@.len() ==> (#[trigger] acc@[a]).0@ != (#[trigger] acc@[b]).0@,
            forall|i: int|
                0 <= i < acc@.len() ==> key_present(v.take(n as int), (#[trigger] acc@[i]).0@)
                    && acc@[i].1 == merged_candidate(v.take(n as int), acc@[i].0@),
            forall|j: int| 0 <= j < n ==> key_present(acc@, (#[trigger] v[j]).0@),
        decreases rest@.len(),
    {
        let (key, c) = rest.remove(0);
        let ghost e = v[n as int];
        assert(e == (key, c));
        assert(rest@ =~= v.subrange(n + 1, v.len() as int));
        let ghost pre = v.take(n as int);
        let ghost post = v.take(n + 1);
        assert(post =~= pre.push(e));
        proof {
            assert forall|k: Seq<char>| k != key@ implies #[trigger] with_key(post, k) == with_key(pre, k) by {
                pre.lemma_filter_push(e, |x: (String, Candidate)| x.0@ == k);
            }
            pre.lemma_filter_push(e, |x: (String, Candidate)| x.0@ == key@);
            assert(with_key(post, key@) == with_key(pre, key@).push(e));
            assert(with_key(post, key@).drop_last() =~= with_key(pre, key@));
        }
        let ghost before = acc@;
        match find_key(&acc, &key) {
            None => {
                proof {
                    if key_present(pre, key@) {
                        let j = choose|j: int| 0 <= j < pre.len() && (#[trigger] pre[j]).0@ == key@;
                        assert(v[j] == pre[j]);
                        assert(key_present(before, v[j].0@));
                    }
                    assert(with_key(pre, key@).len() == 0) by {
                        if with_key(pre, key@).len() > 0 {
                            pre.lemma_filter_pred(|x: (String, Candidate)| x.0@ == key@, 0);
                            assert(with_key(pre, key@).contains(with_key(pre, key@)[0]));
                            pre.lemma_filter_contains_rev(|x: (String, Candidate)| x.0@ == key@, with_key(pre, key@)[0]);
                        }
                    }
                    assert(with_key(post, key@) =~= seq![e]);
                }
                acc.push((key, c));
                proof {
                    assert forall|i: int| 0 <= i < acc@.len() implies key_present(post, (#[trigger] acc@[i]).0@)
                        && acc@[i].1 == merged_candidate(post, acc@[i].0@) by {
                        if i < before.len() {
                            assert(acc@[i] == before[i]);
                            let j = choose|j: int| 0 <= j < pre.len() && (#[trigger] pre[j]).0@ == acc@[i].0@;
                            assert(post[j] == pre[j]);
                        } else {
                            assert(post[n as int] == e);
                        }
                    }
                    assert forall|j: int| 0 <= j < n + 1 implies key_present(acc@, (#[trigger] v[j]).0@) by {
                        if j < n {
                            let i = choose|i: int| 0 <= i < before.len() && (#[trigger] before[i]).0@ == v[j].0@;
                            assert(acc@[i] == before[i]);
                        } else {
                            assert(acc@[before.len() as int].0@ == v[j].0@);
                        }
                    }
                }
            },
            Some(k) => {
                let (kk, mut ex) = acc.remove(k);
                assert((kk, ex) == before[k as int]);
                if ex.name_hint.is_none() {
                    ex.name_hint = c.name_hint;
                }
                if ex.app_path.is_none() {
                    ex.app_path = c.app_path;
                }
                acc.insert(k, (kk, ex));
                proof {
                    assert(acc@ =~= before.update(k as int, (kk, ex)));
                    assert(key_present(pre, key@));
                    let w = with_key(pre, key@);
                    assert(w.len() > 0) by {
                        let j = choose|j: int| 0 <= j < pre.len() && (#[trigger] pre[j]).0@ == key@;
                        pre.lemma_filter_contains(|x: (String, Candidate)| x.0@ == key@, j);
                    }
                    assert(with_key(post, key@)[0] == w[0]);
                    let wp = with_key(post, key@);
                    assert(wp.last() == e);
                    assert(first_hint(wp) == if first_hint(w) is Some {
                        first_hint(w)
                    } else {
                        e.1.name_hint
                    });
                    assert(first_app(wp) == if first_app(w) is Some {
                        first_app(w)
                    } else {
                        e.1.app_path
                    });
                    assert(before[k as int].1 == merged_candidate(pre, key@));
                    assert(ex == merged_candidate(post, key@));
                    assert forall|i: int| 0 <= i < acc@.len() implies key_present(post, (#[trigger] acc@[i]).0@)
                        && acc@[i].1 == merged_candidate(post, acc@[i].0@) by {
                        let j = choose|j: int| 0 <= j < pre.len() && (#[trigger] pre[j]).0@ == before[i].0@;
                        assert(post[j] == pre[j]);
                        if i != k {
                            assert(acc@[i] == before[i]);
                            assert(with_key(post, before[i].0@) == with_key(pre, before[i].0@));
                        }
                    }
                    assert forall|j: int| 0 <= j < n + 1 implies key_present(acc@, (#[trigger] v[j]).0@) by {
                        if j < n {
                            let i = choose|i: int| 0 <= i < before.len() && (#[trigger] before[i]).0@ == v[j].0@;
                            assert(acc@[i].0 == before[i].0);
                        } else {
                            assert(acc@[k as int].0@ == v[j].0@);
                        }
                    }
                }
            },
        }
        n = n + 1;
    }
    assert(v.take(v.len() as int) =~= v);
    let ghost unsorted = acc@;
    let sorted = sort_by_text_key(acc);
    proof {
        assert forall|i: int| 0 <= i < sorted@.len() implies key_present(v, (#[trigger] sorted@[i]).0@)
            && sorted@[i].1 == merged_candidate(v, sorted@[i].0@) by {
            assert(unsorted.contains(sorted@[i]));
            let j = choose|j: int| 0 <= j < unsorted.len() && unsorted[j] == sorted@[i];
        }
        assert forall|j: int| 0 <= j < v.len() implies key_present(sorted@, (#[trigger] v[j]).0@) by {
            let i = choose|i: int| 0 <= i < unsorted.len() && (#[trigger] unsorted[i]).0@ == v[j].0@;
            assert(sorted@.contains(unsorted[i]));
            let k = choose|k: int| 0 <= k < sorted@.len() && sorted@[k] == unsorted[i];
        }
    }
    sorted
}

/// The provider of a home: the one in use, `openai` when none.
pub open spec fn instance_provider(active: Seq<char>) -> Seq<char> {
    if active.len() == 0 {
        "openai"@
    } else {
        active
    }
}

/// A home with a provider other than `openai` is a custom API home.
pub open spec fn instance_kind(provider: Seq<char>, providers: Seq<DiscoveredProvider>) -> ProfileKind {
    let custom = exists|i: int|
        0 <= i < providers.len() && (#[trigger] providers[i]).id@ == provider && providers[i].id@
            != "openai"@;
    if provider != "openai"@ || custom {
        ProfileKind::CustomApi
    } else {
        ProfileKind::ChatGptAccount
    }
}

/// The name shown for a home: the candidate's name unless blank, else `Codex · ` and the
/// directory's name, else a generic name.
pub open spec fn instance_name(hint: Option<String>, home: Seq<char>, os: Os) -> Seq<char> {
    match hint {
        Some(n) if !all_ws(n@) => n@,
        _ => match crate::paths::file_name(os, home) {
            Some(f) => "Codex · "@ + f,
            None => "Codex 本地实例"@,
        },
    }
}

/// The home a candidate turned out to be, given its canonical path and what its
/// configuration names.
pub fn instance_from(candidate: Candidate, home: String, metadata: ConfigMetadata, os: Os) -> (r:
    DiscoveredInstance)
    ensures
        r.home == home,
        r.provider_id@ == instance_provider(metadata.active_provider@),
        r.kind == instance_kind(instance_provider(metadata.active_provider@), metadata.providers@),
        r.name@ == instance_name(candidate.name_hint, home@, os),
        r.discovery_source == candidate.source,
        r.providers == metadata.providers,
        r.config_profiles == metadata.config_profiles,
        r.app_path == candidate.app_path,
{
    let provider_id = if metadata.active_provider.as_str().is_empty() {
        "openai".to_string()
    } else {
        metadata.active_provider.clone()
    };
    let mut custom = false;
    let mut i: usize = 0;
    while i < metadata.providers.len()
        invariant
            i <= metadata.providers@.len(),
            custom == exists|k: int|
                0 <= k < i && (#[trigger] metadata.providers@[k]).id@ == provider_id@
                    && metadata.providers@[k].id@ != "openai"@,
        decreases metadata.providers@.len() - i,
    {
        let p = &metadata.providers[i];
        if p.id == provider_id && !str_eq(p.id.as_str(), "openai") {
            custom = true;
        }
        i = i + 1;
    }
    let kind = if !str_eq(provider_id.as_str(), "openai") || custom {
        ProfileKind::CustomApi
    } else {
        ProfileKind::ChatGptAccount
    };
    let hinted = match &candidate.name_hint {
        Some(n) => !is_blank(&chars_of(n.as_str())),
        None => false,
    };
    let name = if hinted {
        match candidate.name_hint {
            Some(n) => n,
            None => String::new(),
        }
    } else {
        match crate::paths::path_file_name(os, &chars_of(home.as_str())) {
            Some(f) => string_of(&concat(&lit("Codex · "), &f)),
            None => "Codex 本地实例".to_string(),
        }
    };
    DiscoveredInstance {
        home,
        name,
        kind,
        provider_id,
        discovery_source: candidate.source,
        providers: metadata.providers,
        config_profiles: metadata.config_profiles,
        app_path: candidate.app_path,
    }
}

/// Where to look for sibling homes of a home: its parent directory, unless that is a root.
pub open spec fn sibling_root_of(home: Seq<char>, os: Os) -> Option<Seq<char>> {
    match crate::paths::parent(os, home) {
        Some(p) => if crate::paths::parent(os, p) is Some {
            Some(p)
        } else {
            None
        },
        None => None,
    }
}

pub fn sibling_root(home: &str, os: Os) -> (r: Option<String>)
    ensures
        opt_chars(r) == sibling_root_of(home@, os),
{
    match crate::paths::path_parent(os, &chars_of(home)) {
        Some(p) => {
            if crate::paths::path_parent(os, &p).is_some() {
                Some(string_of(&p))
            } else {
                None
            }
        },
        None => None,
    }
}

/// No entry before position `j` has its key.
pub open spec fn first_of_key<T>(v: Seq<(String, T)>, j: int) -> bool {
    forall|m: int| 0 <= m < j ==> (#[trigger] v[m]).0@ != v[j].0@
}

/// `e` is the first entry of `v` under its key.
pub open spec fn first_entry<T>(v: Seq<(String, T)>, e: (String, T)) -> bool {
    exists|j: int| 0 <= j < v.len() && v[j] == e && #[trigger] first_of_key(v, j)
}

pub open spec fn key_in<T>(v: Seq<(String, T)>, k: Seq<char>) -> bool {
    exists|i: int| 0 <= i < v.len() && (#[trigger] v[i]).0@ == k
}

/// One home per key (the first found under it), ordered by key.
pub fn unique_instances(keyed: Vec<(String, DiscoveredInstance)>) -> (r: Vec<(String, DiscoveredInstance)>)
    ensures
        keys_increasing(r@),
        forall|i: int| 0 <= i < r@.len() ==> first_entry(keyed@, #[trigger] r@[i]),
        forall|j: int| 0 <= j < keyed@.len() ==> key_in(r@, (#[trigger] keyed@[j]).0@),
{
    let ghost v = keyed@;
    let mut acc: Vec<(String, DiscoveredInstance)> = Vec::new();
    let mut n: usize = 0;
    let mut rest = keyed;
    let total = rest.len();
    assert(v.len() == total);
    while rest.len() > 0
        invariant
            n + rest@.len() == v.len(),
            v.len() <= usize::MAX,
            rest@ == v.subrange(n as int, v.len() as int),
            forall|a: int, b: int| 0 <= a < b < acc@.len() ==> (#[trigger] acc@[a]).0@ != (#[trigger] acc@[b]).0@,
            forall|i: int| 0 <= i < acc@.len() ==> first_entry(v, #[trigger] acc@[i]),
            forall|j: int| 0 <= j < n ==> key_in(acc@, (#[trigger] v[j]).0@),
        decreases rest@.len(),
    {
        let (key, inst) = rest.remove(0);
        assert((key, inst) == v[n as int]);
        assert(rest@ =~= v.subrange(n + 1, v.len() as int));
        let ghost before = acc@;
        match find_key(&acc, &key) {
            None => {
                proof {
                    assert(first_of_key(v, n as int)) by {
                        assert forall|m: int| 0 <= m < n implies (#[trigger] v[m]).0@ != v[n as int].0@ by {
                            if v[m].0@ == v[n as int].0@ {
                                assert(key_in(before, v[m].0@));
                                let i = choose|i: int| 0 <= i < before.len() && (#[trigger] before[i]).0@ == v[m].0@;
                            }
                        }
                    }
                    assert(first_entry(v, v[n as int]));
                }
                acc.push((key, inst));
                proof {
                    assert forall|i: int| 0 <= i < acc@.len() implies first_entry(v, #[trigger] acc@[i]) by {
                        if i < before.len() {
                            assert(acc@[i] == before[i]);
                        } else {
                            assert(acc@[i] == v[n as int]);
                        }
                    }
                    assert forall|j: int| 0 <= j < n + 1 implies key_in(acc@, (#[trigger] v[j]).0@) by {
                        if j < n {
                            assert(key_in(before, v[j].0@));
                            let i = choose|i: int| 0 <= i < before.len() && (#[trigger] before[i]).0@ == v[j].0@;
                            assert(acc@[i] == before[i]);
                        } else {
                            assert(acc@[before.len() as int] == v[j]);
                        }
                    }
                }
            },
            Some(k) => {
                proof {
                    assert forall|j: int| 0 <= j < n + 1 implies key_in(acc@, (#[trigger] v[j]).0@) by {
                        if j == n {
                            assert(acc@[k as int].0@ == v[j].0@);
                        }
                    }
                }
            },
        }
        n = n + 1;
    }
    let ghost unsorted = acc@;
    let sorted = sort_by_text_key(acc);
    proof {
        assert forall|i: int| 0 <= i < sorted@.len() implies first_entry(v, #[trigger] sorted@[i]) by {
            assert(unsorted.contains(sorted@[i]));
            let a = choose|a: int| 0 <= a < unsorted.len() && unsorted[a] == sorted@[i];
            assert(first_entry(v, unsorted[a]));
        }
        assert forall|j: int| 0 <= j < v.len() implies key_in(sorted@, (#[trigger] v[j]).0@) by {
            assert(key_in(unsorted, v[j].0@));
            let a = choose|a: int| 0 <= a < unsorted.len() && (#[trigger] unsorted[a]).0@ == v[j].0@;
            assert(sorted@.contains(unsorted[a]));
            let k = choose|k: int| 0 <= k < sorted@.len() && sorted@[k] == unsorted[a];
        }
    }
    sorted
}

// ---------------------------------------------------------------------------
// Fingerprints of a Codex home
// ---------------------------------------------------------------------------

/// The top-level keys of a `config.toml` that only Codex writes.
pub open spec fn codex_config_key(k: Seq<char>) -> bool {
    k == "model"@ || k == "model_provider"@ || k == "model_providers"@ || k == "profile"@ || k
        == "profiles"@ || k == "approval_policy"@ || k == "sandbox_mode"@ || k == "projects"@ || k
        == "features"@ || k == "mcp_servers"@ || k == "personality"@ || k == "web_search"@
}

fn is_codex_config_key(k: &str) -> (r: bool)
    ensures
        r == codex_config_key(k@),
{
    str_eq(k, "model") || str_eq(k, "model_provider") || str_eq(k, "model_providers") || str_eq(
        k,
        "profile",
    ) || str_eq(k, "profiles") || str_eq(k, "approval_policy") || str_eq(k, "sandbox_mode")
        || str_eq(k, "projects") || str_eq(k, "features") || str_eq(k, "mcp_servers") || str_eq(
        k,
        "personality",
    ) || str_eq(k, "web_search")
}

/// A `config.toml` is Codex's when one of its top-level keys is one only Codex writes.
pub fn is_codex_config(keys: &Vec<String>) -> (r: bool)
    ensures
        r == exists|i: int| 0 <= i < keys@.len() && codex_config_key((#[trigger] keys@[i])@),
{
    let mut i: usize = 0;
    while i < keys.len()
        invariant
            i <= keys@.len(),
            forall|j: int| 0 <= j < i ==> !codex_config_key((#[trigger] keys@[j])@),
        decreases keys@.len() - i,
    {
        if is_codex_config_key(keys[i].as_str()) {
            return true;
        }
        i = i + 1;
    }
    false
}

/// A file name of a Codex state database: `state_*.sqlite` in any ASCII case.
pub open spec fn state_database_name(name: Seq<char>) -> bool {
    has_prefix(lower(name), "state_"@) && crate::text::has_suffix(lower(name), ".sqlite"@)
}

pub fn is_state_database_name(name: &str) -> (r: bool)
    ensures
        r == state_database_name(name@),
{
    let l = lower_vec(&chars_of(name));
    starts_with(&l, &lit("state_")) && crate::text::ends_with(&l, &lit(".sqlite"))
}

/// What is found in a directory when deciding whether it is a Codex home.
#[derive(Debug, Clone, Copy)]
pub struct HomeFingerprint {
    pub is_dir: bool,
    pub has_session_index: bool,
    pub has_global_state: bool,
    pub has_sessions: bool,
    pub has_archived_sessions: bool,
    /// A `state_*.sqlite` file directly in the directory, or in its `sqlite` directory.
    pub has_state_database: bool,
    pub has_sqlite_state_database: bool,
    /// Its `config.toml` has a key only Codex writes (see [`is_codex_config`]).
    pub has_codex_config: bool,
}

/// A directory is a Codex home when it has any of Codex's own files: the session index,
/// the global state, a sessions or archived sessions directory, a state database, or a
/// Codex `config.toml`.
pub fn is_codex_home(f: HomeFingerprint) -> (r: bool)
    ensures
        r == (f.is_dir && (f.has_session_index || f.has_global_state || f.has_sessions
            || f.has_archived_sessions || f.has_state_database || f.has_sqlite_state_database
            || f.has_codex_config)),
{
    if !f.is_dir {
        return false;
    }
    if f.has_session_index || f.has_global_state || f.has_sessions || f.has_archived_sessions {
        return true;
    }
    f.has_state_database || f.has_sqlite_state_database || f.has_codex_config
}

} // verus!
