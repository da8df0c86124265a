//! Recognition of the ChatGPT desktop client among running processes, and the
//! decisions taken when it is stopped and started again.
use vstd::prelude::*;

use crate::error::AppError;
use crate::paths::{
    app_ancestor, extension_of, file_name, find_app_ancestor, path_file_name, path_parent, parent,
    file_extension, is_sep, component_at,
};
use crate::platform::Os;
use crate::text::{
    chars_of, contains, contains_seq, eq_ignore_case, has_prefix, has_suffix, index_of,
    index_of_char, is_char, is_whitespace, is_ws, lit, lower, lower_vec, replace,
    replace_all, seq_eq, slice_of, starts_with, ends_with, string_of, trim, trim_by, trim_end_by,
    trim_end_char, concat,
};

verus! {

/// What is known of one running process.
#[derive(Debug, Clone)]
pub struct ProcessInfo {
    pub pid: u32,
    pub parent: Option<u32>,
    pub name: String,
    pub executable: Option<String>,
    pub command: Vec<String>,
    pub environment: Vec<String>,
}

/// The result of asking the desktop client to stop.
#[derive(Debug, Clone)]
pub struct ShutdownOutcome {
    pub closed: bool,
    pub executable: Option<String>,
}

/// How the desktop client is started again.
#[derive(Debug, Clone, PartialEq, Eq)]
pub enum RestartTarget {
    MicrosoftStore {
        package_family_name: String,
        app_user_model_id: String,
        executable: Option<String>,
    },
    Standalone { executable: String, working_directory: Option<String> },
    LegacyPath { executable: String, working_directory: Option<String> },
    MacApplication { application: String },
}

// ---------------------------------------------------------------- normalisation

pub open spec fn unc_marker() -> Seq<char> {
    seq!['\\', '\\', '?', '\\', 'u', 'n', 'c', '\\']
}

pub open spec fn extended_marker() -> Seq<char> {
    seq!['\\', '\\', '?', '\\']
}

/// A path compared the way Windows does: separators made `\`, ASCII letters made
/// lower case, the `\\?\` and `\\?\UNC\` prefixes dropped, trailing `\` removed.
pub open spec fn normalized(s: Seq<char>) -> Seq<char> {
    trim_end_by(
        replace_all(
            replace_all(
                lower(replace_all(s, seq!['/'], seq!['\\'])),
                unc_marker(),
                seq!['\\', '\\'],
            ),
            extended_marker(),
            Seq::<char>::empty(),
        ),
        is_char('\\'),
    )
}

pub open spec fn paths_eq(a: Seq<char>, b: Seq<char>) -> bool {
    normalized(a) == normalized(b)
}

pub fn normalize_chars(value: &Vec<char>) -> (r: Vec<char>)
    ensures
        r@ == normalized(value@),
{
    let slash = vec!['/'];
    let backslash = vec!['\\'];
    let a = replace(value, &slash, &backslash);
    let b = lower_vec(&a);
    let unc = vec!['\\', '\\', '?', '\\', 'u', 'n', 'c', '\\'];
    let two = vec!['\\', '\\'];
    let c = replace(&b, &unc, &two);
    let ext = vec!['\\', '\\', '?', '\\'];
    let none: Vec<char> = Vec::new();
    let d = replace(&c, &ext, &none);
    assert(slash@ =~= seq!['/']);
    assert(backslash@ =~= seq!['\\']);
    assert(unc@ =~= unc_marker());
    assert(two@ =~= seq!['\\', '\\']);
    assert(ext@ =~= extended_marker());
    trim_end_char(&d, '\\')
}

/// `normalize_text`.
pub fn normalize_text(value: &str) -> (r: String)
    ensures
        r@ == normalized(value@),
{
    let v = chars_of(value);
    string_of(&normalize_chars(&v))
}

/// Two paths name the same location once normalised.
pub fn paths_equal(left: &str, right: &str) -> (r: bool)
    ensures
        r == paths_eq(left@, right@),
{
    let a = normalize_chars(&chars_of(left));
    let b = normalize_chars(&chars_of(right));
    seq_eq(&a, &b)
}

// ---------------------------------------------------------------- process kinds

/// An argument that marks a helper process of the desktop client.
pub open spec fn auxiliary_argument(a: Seq<char>) -> bool {
    a == "--type"@ || has_prefix(a, "--type="@) || a == "app-server"@ || a == "--app-server"@ || a
        == "app_server"@
}

pub fn is_auxiliary_argument(a: &Vec<char>) -> (r: bool)
    ensures
        r == auxiliary_argument(a@),
{
    seq_eq(a, &lit("--type")) || starts_with(a, &lit("--type=")) || seq_eq(a, &lit("app-server"))
        || seq_eq(a, &lit("--app-server")) || seq_eq(a, &lit("app_server"))
}

/// `s[a..b]` is one of the white-space separated words of `s`.
pub open spec fn is_word(s: Seq<char>, a: int, b: int) -> bool {
    0 <= a < b <= s.len() && (a == 0 || is_ws(s[a - 1])) && (b == s.len() || is_ws(s[b]))
        && forall|j: int| a <= j < b ==> !is_ws(#[trigger] s[j])
}

/// A command line of a helper process: one of its words, lower-cased, marks a helper.
pub open spec fn auxiliary_command(s: Seq<char>) -> bool {
    exists|a: int, b: int| is_word(s, a, b) && auxiliary_argument(lower(s.subrange(a, b)))
}

proof fn lemma_word_start_unique(s: Seq<char>, a: int, st: int, b: int)
    requires
        is_word(s, a, b),
        0 <= st < b,
        st == 0 || is_ws(s[st - 1]),
        forall|j: int| st <= j < b ==> !is_ws(#[trigger] s[j]),
    ensures
        a == st,
{
    if st < a {
        assert(!is_ws(s[a - 1]));
    } else if a < st {
        assert(!is_ws(s[st - 1]));
    }
}

pub fn is_auxiliary_command(s: &Vec<char>) -> (r: bool)
    ensures
        r == auxiliary_command(s@),
{
    let n = s.len();
    let mut start: Option<usize> = None;
    let mut i: usize = 0;
    while i < n
        invariant
            n == s@.len(),
            i <= n,
            match start {
                Some(st) => st < i && (st == 0 || is_ws(s@[st - 1])) && forall|j: int|
                    st <= j < i ==> !is_ws(#[trigger] s@[j]),
                None => i == 0 || is_ws(s@[i - 1]),
            },
            forall|a: int, b: int|
                #![trigger is_word(s@, a, b)]
                is_word(s@, a, b) && b < i ==> !auxiliary_argument(lower(s@.subrange(a, b))),
        decreases n - i,
    {
        if is_whitespace(s[i]) {
            if let Some(st) = start {
                let word = slice_of(s, st, i);
                let lowered = lower_vec(&word);
                if is_auxiliary_argument(&lowered) {
                    assert(is_word(s@, st as int, i as int));
                    return true;
                }
                assert forall|a: int, b: int|
                    #![trigger is_word(s@, a, b)]
                    is_word(s@, a, b) && b < i + 1 implies !auxiliary_argument(
                    lower(s@.subrange(a, b)),
                ) by {
                    if b == i {
                        lemma_word_start_unique(s@, a, st as int, b);
                    }
                }
            } else {
                assert forall|a: int, b: int|
                    #![trigger is_word(s@, a, b)]
                    is_word(s@, a, b) && b < i + 1 implies !auxiliary_argument(
                    lower(s@.subrange(a, b)),
                ) by {
                    if b == i {
                        assert(!is_ws(s@[b - 1]));
                    }
                }
            }
            start = None;
        } else {
            assert forall|a: int, b: int|
                #![trigger is_word(s@, a, b)]
                is_word(s@, a, b) && b < i + 1 implies !auxiliary_argument(
                lower(s@.subrange(a, b)),
            ) by {
                if b == i {
                    assert(is_ws(s@[b]));
                }
            }
            if start.is_none() {
                start = Some(i);
            }
        }
        i = i + 1;
    }
    if let Some(st) = start {
        let word = slice_of(s, st, n);
        let lowered = lower_vec(&word);
        if is_auxiliary_argument(&lowered) {
            assert(is_word(s@, st as int, n as int));
            return true;
        }
        assert forall|a: int, b: int|
            #![trigger is_word(s@, a, b)]
            is_word(s@, a, b) implies !auxiliary_argument(lower(s@.subrange(a, b))) by {
            if b == n {
                lemma_word_start_unique(s@, a, st as int, b);
            }
        }
    } else {
        assert forall|a: int, b: int|
            #![trigger is_word(s@, a, b)]
            is_word(s@, a, b) implies !auxiliary_argument(lower(s@.subrange(a, b))) by {
            if b == n {
                assert(!is_ws(s@[b - 1]));
            }
        }
    }
    false
}

/// A helper process of the desktop client (renderer, crash handler, app-server).
pub fn is_desktop_auxiliary_process(command: &str) -> (r: bool)
    ensures
        r == auxiliary_command(command@),
{
    is_auxiliary_command(&chars_of(command))
}

pub open spec fn mac_bundle_marker() -> Seq<char> {
    ".app\\contents\\macos"@
}

/// The desktop client itself: `chatgpt`, or `codex` running from inside a macOS bundle.
pub open spec fn desktop_client(stem: Seq<char>, executable: Option<Seq<char>>) -> bool {
    stem == "chatgpt"@ || (stem == "codex"@ && match executable {
        Some(path) => contains(normalized(path), mac_bundle_marker()),
        None => false,
    })
}

pub fn is_desktop_client_process(process_stem: &str, executable: Option<&str>) -> (r: bool)
    ensures
        r == desktop_client(
            process_stem@,
            match executable {
                Some(e) => Some(e@),
                None => None,
            },
        ),
{
    let stem = chars_of(process_stem);
    if seq_eq(&stem, &lit("chatgpt")) {
        return true;
    }
    if !seq_eq(&stem, &lit("codex")) {
        return false;
    }
    match executable {
        Some(path) => {
            let n = normalize_chars(&chars_of(path));
            contains_seq(&n, &lit(".app\\contents\\macos"))
        },
        None => false,
    }
}

/// A saved executable path designates the running one; a saved `.app` bundle
/// designates any executable inside its `Contents/MacOS`.
pub open spec fn executable_match(expected: Seq<char>, actual: Seq<char>) -> bool {
    let e = normalized(expected);
    let a = normalized(actual);
    a == e || (has_suffix(e, ".app"@) && has_prefix(a, e + "\\contents\\macos\\"@))
}

pub fn executable_paths_match(expected: &str, actual: &str) -> (r: bool)
    ensures
        r == executable_match(expected@, actual@),
{
    let e = normalize_chars(&chars_of(expected));
    let a = normalize_chars(&chars_of(actual));
    if seq_eq(&a, &e) {
        return true;
    }
    ends_with(&e, &lit(".app")) && starts_with(&a, &concat(&e, &lit("\\contents\\macos\\")))
}

// ---------------------------------------------------------------- environment

/// The value of the first `key=value` line (lines split at `\n`) whose key equals
/// `key` up to ASCII case; a line without `=` is passed over.
pub open spec fn line_value(s: Seq<char>, key: Seq<char>) -> Option<Seq<char>>
    decreases s.len(),
{
    let e = index_of(s, '\n');
    let line = s.take(e);
    let k = index_of(line, '=');
    if k < line.len() && lower(line.take(k)) == lower(key) {
        Some(line.skip(k + 1))
    } else if e >= s.len() {
        None
    } else {
        proof {
            crate::text::lemma_index_of_bounds(s, '\n');
        }
        line_value(s.skip(e + 1), key)
    }
}

pub fn find_line_value(s: &Vec<char>, key: &Vec<char>) -> (r: Option<Vec<char>>)
    ensures
        match r {
            Some(v) => line_value(s@, key@) == Some(v@),
            None => line_value(s@, key@).is_none(),
        },
{
    let n = s.len();
    let mut pos: usize = 0;
    assert(s@.skip(0) =~= s@);
    loop
        invariant
            n == s@.len(),
            pos <= n,
            line_value(s@.skip(pos as int), key@) == line_value(s@, key@),
        decreases n - pos,
    {
        let rest = slice_of(s, pos, n);
        assert(rest@ =~= s@.skip(pos as int));
        let e = index_of_char(&rest, '\n');
        let line = slice_of(&rest, 0, e);
        assert(line@ =~= rest@.take(e as int));
        let k = index_of_char(&line, '=');
        if k < line.len() {
            let name = slice_of(&line, 0, k);
            assert(name@ =~= line@.take(k as int));
            if eq_ignore_case(&name, key) {
                let value = slice_of(&line, k + 1, line.len());
                assert(value@ =~= line@.skip(k + 1));
                return Some(value);
            }
        }
        if e >= rest.len() {
            return None;
        }
        assert(rest@.skip(e + 1) =~= s@.skip(pos + e + 1));
        pos = pos + e + 1;
    }
}

pub open spec fn codex_home_key() -> Seq<char> {
    "CODEX_HOME"@
}

/// The `CODEX_HOME` a process sets in its environment, one `key=value` per line.
pub fn explicit_codex_home(environment: &str) -> (r: Option<String>)
    ensures
        match r {
            Some(v) => line_value(environment@, codex_home_key()) == Some(v@),
            None => line_value(environment@, codex_home_key()).is_none(),
        },
{
    match find_line_value(&chars_of(environment), &lit("CODEX_HOME")) {
        Some(v) => Some(string_of(&v)),
        None => None,
    }
}

pub open spec fn opt_view(o: Option<&str>) -> Option<Seq<char>> {
    match o {
        Some(s) => Some(s@),
        None => None,
    }
}

/// Whether a process is the desktop client serving `target_home`.
pub open spec fn matches_target(
    target_home: Seq<char>,
    default_home: bool,
    target_executable: Option<Seq<char>>,
    process_stem: Seq<char>,
    executable: Option<Seq<char>>,
    command: Seq<char>,
    environment: Seq<char>,
) -> bool {
    if !desktop_client(process_stem, executable) || auxiliary_command(command) {
        false
    } else {
        let explicit = line_value(environment, codex_home_key());
        let haystack = normalized(command + seq!['\n'] + environment);
        if explicit is Some && paths_eq(trim_by(explicit->0, crate::text::ws()), target_home) {
            true
        } else {
            (match (target_executable, executable) {
                (Some(t), Some(a)) => default_home && executable_match(t, a) && explicit is None,
                _ => false,
            }) || (default_home && explicit is None && !contains(haystack, "codex_home="@))
        }
    }
}

/// A client whose environment names a `CODEX_HOME` other than the target home serves that
/// other home: it is never taken for the target's client, whatever its executable, its
/// command, or whether the target is the default home.
pub proof fn law_other_home_is_never_the_target(
    target_home: Seq<char>,
    default_home: bool,
    target_executable: Option<Seq<char>>,
    process_stem: Seq<char>,
    executable: Option<Seq<char>>,
    command: Seq<char>,
    environment: Seq<char>,
)
    requires
        line_value(environment, codex_home_key()) matches Some(h) && !paths_eq(
            trim_by(h, crate::text::ws()),
            target_home,
        ),
    ensures
        !matches_target(
            target_home,
            default_home,
            target_executable,
            process_stem,
            executable,
            command,
            environment,
        ),
{
}

/// Where the environment names the target home, the client serving it is the target's
/// client, unless it is not the desktop client or is one of its helper processes.
pub proof fn law_named_home_is_the_target(
    target_home: Seq<char>,
    default_home: bool,
    target_executable: Option<Seq<char>>,
    process_stem: Seq<char>,
    executable: Option<Seq<char>>,
    command: Seq<char>,
    environment: Seq<char>,
)
    requires
        line_value(environment, codex_home_key()) matches Some(h) && paths_eq(
            trim_by(h, crate::text::ws()),
            target_home,
        ),
    ensures
        matches_target(
            target_home,
            default_home,
            target_executable,
            process_stem,
            executable,
            command,
            environment,
        ) == (desktop_client(process_stem, executable) && !auxiliary_command(command)),
{
}

/// `matches_target_client`: a custom home must be named by the process itself;
/// only the default home may be recognised by the saved executable or by the
/// absence of any `CODEX_HOME`.
pub fn matches_target_client(
    target_home: &str,
    default_home: bool,
    target_executable: Option<&str>,
    process_stem: &str,
    executable: Option<&str>,
    command: &str,
    environment: &str,
) -> (r: bool)
    ensures
        r == matches_target(
            target_home@,
            default_home,
            opt_view(target_executable),
            process_stem@,
            opt_view(executable),
            command@,
            environment@,
        ),
{
    if !is_desktop_client_process(process_stem, executable) || is_desktop_auxiliary_process(
        command,
    ) {
        return false;
    }
    let env = chars_of(environment);
    let mut joined = chars_of(command);
    joined.push('\n');
    let both = concat(&joined, &env);
    assert(both@ =~= command@ + seq!['\n'] + environment@);
    let haystack = normalize_chars(&both);
    let explicit = find_line_value(&env, &lit("CODEX_HOME"));
    let target = chars_of(target_home);
    let mut named = false;
    if let Some(value) = &explicit {
        let trimmed = trim(value);
        named = seq_eq(&normalize_chars(&trimmed), &normalize_chars(&target));
    }
    assert(named == (line_value(environment@, codex_home_key()) is Some && paths_eq(
        trim_by(line_value(environment@, codex_home_key())->0, crate::text::ws()),
        target_home@,
    )));
    if named {
        return true;
    }
    let by_executable = match (target_executable, executable) {
        (Some(t), Some(a)) => default_home && executable_paths_match(t, a) && explicit.is_none(),
        _ => false,
    };
    by_executable || (default_home && explicit.is_none() && !contains_seq(
        &haystack,
        &lit("codex_home="),
    ))
}

/// With the default home, processes that name no home are accepted after those
/// that name it; with a custom home only the latter.
pub fn select_root_pids(default_home: bool, explicit: Vec<u32>, fallback: Vec<u32>) -> (r: Vec<
    u32,
>)
    ensures
        r@ == (if default_home {
            explicit@ + fallback@
        } else {
            explicit@
        }),
{
    if default_home {
        let mut out = explicit;
        let mut i: usize = 0;
        let ghost front = out@;
        while i < fallback.len()
            invariant
                i <= fallback.len(),
                out@ == front + fallback@.subrange(0, i as int),
            decreases fallback.len() - i,
        {
            out.push(fallback[i]);
            assert(out@ =~= front + fallback@.subrange(0, i + 1));
            i = i + 1;
        }
        assert(fallback@.subrange(0, fallback@.len() as int) =~= fallback@);
        out
    } else {
        explicit
    }
}

// ---------------------------------------------------------------- application paths

/// A process or file name, lower-cased, without a final `.exe`.
pub open spec fn stem_of(name: Seq<char>) -> Seq<char> {
    let l = lower(name);
    if has_suffix(l, ".exe"@) {
        l.take(l.len() - 4)
    } else {
        l
    }
}

pub fn process_stem(name: &Vec<char>) -> (r: Vec<char>)
    ensures
        r@ == stem_of(name@),
{
    let l = lower_vec(name);
    let exe = lit(".exe");
    if ends_with(&l, &exe) {
        proof {
            reveal_strlit(".exe");
        }
        slice_of(&l, 0, l.len() - 4)
    } else {
        l
    }
}

/// A path to the desktop client's entry point, not to the CLI or the app-server.
/// The file name is read with `\` as a separator on every system, as a saved Windows path
/// may be checked anywhere.
pub open spec fn restartable_application(path: Seq<char>, os: Os) -> bool {
    let stem = match file_name(Os::Windows, path) {
        Some(n) => stem_of(n),
        None => Seq::<char>::empty(),
    };
    stem == "chatgpt"@ || (os == Os::MacOs && ((stem == "codex"@ && contains(
        normalized(path),
        ".app\\contents\\macos\\"@,
    )) || match file_name(os, path) {
        Some(n) => match extension_of(n) {
            Some(e) => lower(e) == "app"@,
            None => false,
        },
        None => false,
    }))
}

pub fn is_restartable_application_path(path: &str, os: Os) -> (r: bool)
    ensures
        r == restartable_application(path@, os),
{
    let p = chars_of(path);
    let stem = match path_file_name(Os::Windows, &p) {
        Some(n) => process_stem(&n),
        None => Vec::new(),
    };
    let name = path_file_name(os, &p);
    if seq_eq(&stem, &lit("chatgpt")) {
        return true;
    }
    if os != Os::MacOs {
        return false;
    }
    if seq_eq(&stem, &lit("codex")) && contains_seq(
        &normalize_chars(&p),
        &lit(".app\\contents\\macos\\"),
    ) {
        return true;
    }
    proof {
        reveal_strlit("app");
        assert(lower("app"@) =~= "app"@);
    }
    match &name {
        Some(n) => match file_extension(n) {
            Some(e) => eq_ignore_case(&e, &lit("app")),
            None => false,
        },
        None => false,
    }
}

/// `is_restartable_client_path`: a persisted application path, trimmed, points to
/// the desktop client.
pub fn is_restartable_client_path(path: &str, os: Os) -> (r: bool)
    ensures
        r == restartable_application(trim_by(path@, crate::text::ws()), os),
{
    let t = trim(&chars_of(path));
    is_restartable_application_path(&string_of(&t), os)
}

pub open spec fn store_marker() -> Seq<char> {
    "\\windowsapps\\openai."@
}

/// A path inside the Microsoft Store installation of an OpenAI package.
pub fn is_windows_store_path(path: &str) -> (r: bool)
    ensures
        r == contains(normalized(path@), store_marker()),
{
    contains_seq(&normalize_chars(&chars_of(path)), &lit("\\windowsapps\\openai."))
}


// ---------------------------------------------------------------- running processes

/// The home named by the first `CODEX_HOME=` entry with a non-blank value.
pub open spec fn home_from_entries(entries: Seq<Seq<char>>) -> Option<Seq<char>>
    decreases entries.len(),
{
    if entries.len() == 0 {
        None
    } else {
        let e = entries[0];
        let k = index_of(e, '=');
        if k < e.len() && lower(e.take(k)) == lower(codex_home_key()) && trim_by(
            e.skip(k + 1),
            crate::text::ws(),
        ).len() > 0 {
            Some(trim_by(e.skip(k + 1), crate::text::ws()))
        } else {
            home_from_entries(entries.drop_first())
        }
    }
}

pub open spec fn views(v: Seq<String>) -> Seq<Seq<char>> {
    v.map_values(|s: String| s@)
}

/// `process_codex_home`: the home a process's environment names explicitly.
pub fn process_codex_home(environment: &Vec<String>) -> (r: Option<String>)
    ensures
        match r {
            Some(v) => home_from_entries(views(environment@)) == Some(v@),
            None => home_from_entries(views(environment@)).is_none(),
        },
{
    let key = lit("CODEX_HOME");
    let mut i: usize = 0;
    assert(views(environment@).skip(0) =~= views(environment@));
    while i < environment.len()
        invariant
            i <= environment.len(),
            key@ == codex_home_key(),
            home_from_entries(views(environment@).skip(i as int)) == home_from_entries(
                views(environment@),
            ),
        decreases environment.len() - i,
    {
        let ghost rest = views(environment@).skip(i as int);
        assert(rest[0] == environment@[i as int]@);
        assert(rest.drop_first() =~= views(environment@).skip(i + 1));
        let e = chars_of(environment[i].as_str());
        let k = index_of_char(&e, '=');
        if k < e.len() {
            let name = slice_of(&e, 0, k);
            assert(name@ =~= e@.take(k as int));
            if eq_ignore_case(&name, &key) {
                let value = slice_of(&e, k + 1, e.len());
                assert(value@ =~= e@.skip(k + 1));
                let t = trim(&value);
                if t.len() > 0 {
                    return Some(string_of(&t));
                }
            }
        }
        i = i + 1;
    }
    None
}

pub open spec fn any_auxiliary_argument(command: Seq<String>) -> bool {
    exists|j: int| 0 <= j < command.len() && auxiliary_argument(lower(#[trigger] command[j]@))
}

/// The main process of the desktop client, not one of its helpers.
pub open spec fn main_desktop_process(p: ProcessInfo, os: Os) -> bool {
    let stem = stem_of(p.name@);
    let supported = stem == "chatgpt"@ || (os == Os::MacOs && stem == "codex"@ && match p.executable {
        Some(e) => contains(normalized(e@), mac_bundle_marker()),
        None => false,
    });
    supported && !any_auxiliary_argument(p.command@)
}

pub fn is_main_desktop_process(p: &ProcessInfo, os: Os) -> (r: bool)
    ensures
        r == main_desktop_process(*p, os),
{
    let stem = process_stem(&chars_of(p.name.as_str()));
    let supported = seq_eq(&stem, &lit("chatgpt")) || (os == Os::MacOs && seq_eq(
        &stem,
        &lit("codex"),
    ) && match &p.executable {
        Some(e) => contains_seq(&normalize_chars(&chars_of(e.as_str())), &lit(".app\\contents\\macos")),
        None => false,
    });
    if !supported {
        return false;
    }
    let mut j: usize = 0;
    while j < p.command.len()
        invariant
            j <= p.command.len(),
            forall|k: int| 0 <= k < j ==> !auxiliary_argument(lower(#[trigger] p.command@[k]@)),
        decreases p.command.len() - j,
    {
        let a = lower_vec(&chars_of(p.command[j].as_str()));
        if is_auxiliary_argument(&a) {
            return false;
        }
        j = j + 1;
    }
    true
}

/// The homes named by running desktop clients, in process order, each once.
pub open spec fn homes_of(ps: Seq<ProcessInfo>, os: Os) -> Seq<Seq<char>>
    decreases ps.len(),
{
    if ps.len() == 0 {
        Seq::<Seq<char>>::empty()
    } else {
        let before = homes_of(ps.drop_last(), os);
        let p = ps.last();
        match home_from_entries(views(p.environment@)) {
            Some(h) => if main_desktop_process(p, os) && p.executable is Some && !(exists|j: int|
                0 <= j < before.len() && paths_eq(#[trigger] before[j], h)) {
                before.push(h)
            } else {
                before
            },
            None => before,
        }
    }
}

/// `running_codex_homes`: the explicit homes of the running desktop clients.
pub fn running_codex_homes(processes: &Vec<ProcessInfo>, os: Os) -> (r: Vec<String>)
    ensures
        views(r@) == homes_of(processes@, os),
{
    let mut homes: Vec<String> = Vec::new();
    let mut i: usize = 0;
    while i < processes.len()
        invariant
            i <= processes.len(),
            views(homes@) == homes_of(processes@.take(i as int), os),
        decreases processes.len() - i,
    {
        let p = &processes[i];
        assert(processes@.take(i + 1).drop_last() =~= processes@.take(i as int));
        assert(processes@.take(i + 1).last() == processes@[i as int]);
        let ghost before = views(homes@);
        if is_main_desktop_process(p, os) && p.executable.is_some() {
            if let Some(home) = process_codex_home(&p.environment) {
                let mut seen = false;
                let mut j: usize = 0;
                while j < homes.len()
                    invariant
                        j <= homes.len(),
                        before == views(homes@),
                        seen == exists|k: int| 0 <= k < j && paths_eq(#[trigger] before[k], home@),
                    decreases homes.len() - j,
                {
                    let eq = paths_equal(homes[j].as_str(), home.as_str());
                    assert(before[j as int] == homes@[j as int]@);
                    if eq {
                        seen = true;
                    }
                    assert(seen == exists|k: int|
                        0 <= k < j + 1 && paths_eq(#[trigger] before[k], home@)) by {
                        if !eq && !(exists|k: int| 0 <= k < j && paths_eq(#[trigger] before[k], home@)) {
                            assert forall|k: int| 0 <= k < j + 1 implies !paths_eq(
                                #[trigger] before[k],
                                home@,
                            ) by {}
                        }
                    }
                    j = j + 1;
                }
                if !seen {
                    homes.push(home);
                    assert(views(homes@) =~= before.push(home@));
                }
            }
        }
        i = i + 1;
    }
    assert(processes@.take(processes@.len() as int) =~= processes@);
    homes
}

// ---------------------------------------------------------------- restart targets

pub open spec fn opt_string_view(o: Option<String>) -> Option<Seq<char>> {
    match o {
        Some(s) => Some(s@),
        None => None,
    }
}

/// The saved executable is inside a Microsoft Store installation.
pub open spec fn in_store(path: Seq<char>) -> bool {
    contains(normalized(path), store_marker())
}

/// How a saved executable is started again: a macOS bundle is opened, a Windows
/// Store path is activated through its package, anything else is run directly in
/// its own directory.
pub open spec fn target_for(path: Seq<char>, os: Os, r: Option<RestartTarget>) -> bool {
    match r {
        Some(RestartTarget::LegacyPath { executable, working_directory }) => os == Os::Windows
            && in_store(path) && executable@ == path && opt_string_view(working_directory)
            == parent(os, path),
        Some(RestartTarget::Standalone { executable, working_directory }) => os != Os::MacOs
            && !(os == Os::Windows && in_store(path)) && executable@ == path && opt_string_view(
            working_directory,
        ) == parent(os, path),
        Some(RestartTarget::MacApplication { application }) => os == Os::MacOs && app_ancestor(
            os,
            path,
        ) == Some(application@),
        Some(RestartTarget::MicrosoftStore { .. }) => false,
        None => os == Os::MacOs && app_ancestor(os, path) is None,
    }
}

pub fn target_from_executable(path: &str, os: Os) -> (r: Option<RestartTarget>)
    ensures
        target_for(path@, os, r),
{
    let p = chars_of(path);
    if os == Os::MacOs {
        return match find_app_ancestor(os, &p) {
            Some(app) => Some(RestartTarget::MacApplication { application: string_of(&app) }),
            None => None,
        };
    }
    let working_directory = match path_parent(os, &p) {
        Some(d) => Some(string_of(&d)),
        None => None,
    };
    let executable = string_of(&p);
    if os == Os::Windows && is_windows_store_path(path) {
        Some(RestartTarget::LegacyPath { executable, working_directory })
    } else {
        Some(RestartTarget::Standalone { executable, working_directory })
    }
}

/// `is_openai_chatgpt_package`: an OpenAI Codex or ChatGPT package name.
pub open spec fn openai_package(name: Seq<char>) -> bool {
    let n = lower(trim_by(name, crate::text::ws()));
    has_prefix(n, "openai.codex"@) || has_prefix(n, "openai.chatgpt"@)
}

pub fn is_openai_chatgpt_package(name: &str) -> (r: bool)
    ensures
        r == openai_package(name@),
{
    let n = lower_vec(&trim(&chars_of(name)));
    starts_with(&n, &lit("openai.codex")) || starts_with(&n, &lit("openai.chatgpt"))
}

/// The application id of a Store package's main entry.
pub fn windows_app_user_model_id(package_family_name: &str) -> (r: String)
    ensures
        r@ == package_family_name@ + "!App"@,
{
    string_of(&concat(&chars_of(package_family_name), &lit("!App")))
}

pub open spec fn store_family_component(c: Seq<char>) -> bool {
    has_prefix(lower(c), "openai.codex_"@) || has_prefix(lower(c), "openai.chatgpt_"@)
}

/// The first component of a Windows path naming an OpenAI Store package.
pub open spec fn first_family(s: Seq<char>, r: Option<Seq<char>>) -> bool {
    match r {
        Some(v) => exists|a: int, b: int|
            component_at(Os::Windows, s, a, b) && v == s.subrange(a, b) && store_family_component(v)
                && forall|a2: int, b2: int|
                component_at(Os::Windows, s, a2, b2) && b2 <= a ==> !store_family_component(
                    #[trigger] s.subrange(a2, b2),
                ),
        None => forall|a: int, b: int|
            component_at(Os::Windows, s, a, b) ==> !store_family_component(
                #[trigger] s.subrange(a, b),
            ),
    }
}

proof fn lemma_component_start_unique(s: Seq<char>, a: int, st: int, b: int)
    requires
        component_at(Os::Windows, s, a, b),
        0 <= st < b,
        st == 0 || is_sep(Os::Windows, s[st - 1]),
        forall|j: int| st <= j < b ==> !is_sep(Os::Windows, #[trigger] s[j]),
    ensures
        a == st,
{
    if st < a {
        assert(!is_sep(Os::Windows, s[a - 1]));
    } else if a < st {
        assert(!is_sep(Os::Windows, s[st - 1]));
    }
}

pub fn is_store_family_component(c: &Vec<char>) -> (r: bool)
    ensures
        r == store_family_component(c@),
{
    let l = lower_vec(c);
    starts_with(&l, &lit("openai.codex_")) || starts_with(&l, &lit("openai.chatgpt_"))
}

/// `windows_store_family_from_path`.
pub fn windows_store_family_from_path(path: &str) -> (r: Option<String>)
    ensures
        first_family(path@, opt_string_view(r)),
{
    let s = chars_of(path);
    let n = s.len();
    let mut start: Option<usize> = None;
    let mut i: usize = 0;
    while i < n
        invariant
            n == s@.len(),
            s@ == path@,
            i <= n,
            match start {
                Some(st) => st < i && (st == 0 || is_sep(Os::Windows, s@[st - 1])) && forall|j: int|
                    st <= j < i ==> !is_sep(Os::Windows, #[trigger] s@[j]),
                None => i == 0 || is_sep(Os::Windows, s@[i - 1]),
            },
            forall|a: int, b: int|
                component_at(Os::Windows, s@, a, b) && b < i ==> !store_family_component(
                    #[trigger] s@.subrange(a, b),
                ),
        decreases n - i,
    {
        if crate::paths::is_separator(Os::Windows, s[i]) {
            if let Some(st) = start {
                let c = slice_of(&s, st, i);
                if is_store_family_component(&c) {
                    assert(component_at(Os::Windows, s@, st as int, i as int));
                    assert forall|a2: int, b2: int|
                        component_at(Os::Windows, s@, a2, b2) && b2 <= st implies !store_family_component(
                        #[trigger] s@.subrange(a2, b2),
                    ) by {}
                    return Some(string_of(&c));
                }
                assert forall|a: int, b: int|
                    component_at(Os::Windows, s@, a, b) && b < i + 1 implies !store_family_component(
                    #[trigger] s@.subrange(a, b),
                ) by {
                    if b == i {
                        lemma_component_start_unique(s@, a, st as int, b);
                    }
                }
            } else {
                assert forall|a: int, b: int|
                    component_at(Os::Windows, s@, a, b) && b < i + 1 implies !store_family_component(
                    #[trigger] s@.subrange(a, b),
                ) by {
                    if b == i {
                        assert(!is_sep(Os::Windows, s@[b - 1]));
                    }
                }
            }
            start = None;
        } else {
            assert forall|a: int, b: int|
                component_at(Os::Windows, s@, a, b) && b < i + 1 implies !store_family_component(
                #[trigger] s@.subrange(a, b),
            ) by {
                if b == i {
                    assert(is_sep(Os::Windows, s@[b]));
                }
            }
            if start.is_none() {
                start = Some(i);
            }
        }
        i = i + 1;
    }
    if let Some(st) = start {
        let c = slice_of(&s, st, n);
        if is_store_family_component(&c) {
            assert(component_at(Os::Windows, s@, st as int, n as int));
            return Some(string_of(&c));
        }
        assert forall|a: int, b: int|
            component_at(Os::Windows, s@, a, b) implies !store_family_component(
            #[trigger] s@.subrange(a, b),
        ) by {
            if b == n {
                lemma_component_start_unique(s@, a, st as int, b);
            }
        }
    } else {
        assert forall|a: int, b: int|
            component_at(Os::Windows, s@, a, b) implies !store_family_component(
            #[trigger] s@.subrange(a, b),
        ) by {
            if b == n {
                assert(!is_sep(Os::Windows, s@[b - 1]));
            }
        }
    }
    None
}


// ---------------------------------------------------------------- restart and shutdown

/// The saved application path worth trying: present and not blank, trimmed.
pub fn restart_candidate(app_path: Option<&str>) -> (r: Option<String>)
    ensures
        match app_path {
            None => r is None,
            Some(p) => if trim_by(p@, crate::text::ws()).len() == 0 {
                r is None
            } else {
                r matches Some(v) && v@ == trim_by(p@, crate::text::ws())
            },
        },
{
    match app_path {
        None => None,
        Some(p) => {
            let t = trim(&chars_of(p));
            if t.len() == 0 {
                None
            } else {
                Some(string_of(&t))
            }
        },
    }
}

pub open spec fn missing_application_message(path: Seq<char>) -> Seq<char> {
    "ChatGPT application does not exist: "@ + path
}

/// `restart`, before anything is launched: a missing application is an error
/// (unless Windows may virtualise its Store path); a path that is not the desktop
/// client gives nothing to start; otherwise the target to launch and wait for.
pub fn restart(path: &str, path_exists: bool, os: Os) -> (r: Result<Option<RestartTarget>, AppError>)
    ensures
        r is Err <==> (!path_exists && !(os == Os::Windows && in_store(path@))),
        r matches Err(e) ==> e == AppError::InvalidPath(e.text_string()) && e.text()
            == missing_application_message(path@),
        r matches Ok(t) ==> if restartable_application(path@, os) {
            target_for(path@, os, t)
        } else {
            t is None
        },
{
    let virtualized = os == Os::Windows && is_windows_store_path(path);
    if !path_exists && !virtualized {
        let message = string_of(&concat(&lit("ChatGPT application does not exist: "), &chars_of(path)));
        return Err(AppError::InvalidPath(message));
    }
    if !is_restartable_application_path(path, os) {
        return Ok(None);
    }
    Ok(target_from_executable(path, os))
}

pub open spec fn not_detected_message() -> Seq<char> {
    "已发送 ChatGPT 启动命令，但未检测到 ChatGPT 进程"@
}

/// How a restart ends once the client was launched and the caller waited for it: restarted
/// where a matching desktop process was seen in time, an error otherwise.
pub fn restart_outcome(started: bool) -> (r: Result<bool, AppError>)
    ensures
        started ==> (r matches Ok(b) && b),
        !started ==> (r matches Err(e) && e is Message && e.text() == not_detected_message()),
{
    if started {
        Ok(true)
    } else {
        Err(AppError::Message("已发送 ChatGPT 启动命令，但未检测到 ChatGPT 进程".to_string()))
    }
}

/// A process found to serve the home being stopped.
#[derive(Debug, Clone)]
pub struct MatchingProcess {
    pub pid: u32,
    pub executable: Option<String>,
}

/// Where the shutdown of the desktop client stands.
#[derive(Debug, Clone, Copy, PartialEq, Eq)]
pub enum StopPhase {
    Begin,
    AfterGracefulWait { exited: bool },
    AfterForcedWait { exited: bool },
}

/// What to do next to stop the desktop client.
#[derive(Debug, Clone)]
pub enum StopAction {
    Finished(ShutdownOutcome),
    RequestExit { pids: Vec<u32> },
    ForceExit,
    Failed(AppError),
}

pub open spec fn first_executable(ms: Seq<MatchingProcess>) -> Option<Seq<char>>
    decreases ms.len(),
{
    if ms.len() == 0 {
        None
    } else {
        match ms[0].executable {
            Some(e) => Some(e@),
            None => first_executable(ms.drop_first()),
        }
    }
}

pub fn first_matching_executable(ms: &Vec<MatchingProcess>) -> (r: Option<String>)
    ensures
        opt_string_view(r) == first_executable(ms@),
{
    let mut i: usize = 0;
    assert(ms@.skip(0) =~= ms@);
    while i < ms.len()
        invariant
            i <= ms.len(),
            first_executable(ms@.skip(i as int)) == first_executable(ms@),
        decreases ms.len() - i,
    {
        assert(ms@.skip(i as int)[0] == ms@[i as int]);
        assert(ms@.skip(i as int).drop_first() =~= ms@.skip(i + 1));
        if let Some(e) = &ms[i].executable {
            return Some(e.clone());
        }
        i = i + 1;
    }
    None
}

pub open spec fn pids_of(ms: Seq<MatchingProcess>) -> Seq<u32> {
    ms.map_values(|m: MatchingProcess| m.pid)
}

pub open spec fn graceful_timeout_message() -> Seq<char> {
    "ChatGPT 客户端未正常退出，请确认后强制关闭并重试"@
}

pub open spec fn forced_timeout_message() -> Seq<char> {
    "ChatGPT 客户端强制关闭后仍在运行"@
}

/// `ensure_stopped`, one decision at a time: nothing to stop finishes at once;
/// otherwise the clients are asked to exit; a client that outlives the wait is
/// killed with its process tree only when `force` allows, and must then be gone.
pub fn ensure_stopped(matching: &Vec<MatchingProcess>, phase: StopPhase, force: bool) -> (r:
    StopAction)
    ensures
        match phase {
            StopPhase::Begin => if matching@.len() == 0 {
                r matches StopAction::Finished(o) && !o.closed && o.executable is None
            } else {
                r matches StopAction::RequestExit { pids } && pids@ == pids_of(matching@)
            },
            StopPhase::AfterGracefulWait { exited } => if exited {
                r matches StopAction::Finished(o) && o.closed && opt_string_view(o.executable)
                    == first_executable(matching@)
            } else if !force {
                r matches StopAction::Failed(e) && e.text() == graceful_timeout_message()
            } else {
                r is ForceExit
            },
            StopPhase::AfterForcedWait { exited } => if exited {
                r matches StopAction::Finished(o) && o.closed && opt_string_view(o.executable)
                    == first_executable(matching@)
            } else {
                r matches StopAction::Failed(e) && e.text() == forced_timeout_message()
            },
        },
{
    match phase {
        StopPhase::Begin => {
            if matching.len() == 0 {
                return StopAction::Finished(ShutdownOutcome { closed: false, executable: None });
            }
            let mut pids: Vec<u32> = Vec::new();
            let mut i: usize = 0;
            while i < matching.len()
                invariant
                    i <= matching.len(),
                    pids@ == pids_of(matching@).take(i as int),
                decreases matching.len() - i,
            {
                pids.push(matching[i].pid);
                assert(pids_of(matching@).take(i + 1) =~= pids_of(matching@).take(i as int).push(
                    matching@[i as int].pid,
                ));
                i = i + 1;
            }
            assert(pids_of(matching@).take(matching@.len() as int) =~= pids_of(matching@));
            StopAction::RequestExit { pids }
        },
        StopPhase::AfterGracefulWait { exited } => {
            if exited {
                StopAction::Finished(
                    ShutdownOutcome { closed: true, executable: first_matching_executable(matching) },
                )
            } else if !force {
                StopAction::Failed(
                    AppError::Message(string_of(&lit("ChatGPT 客户端未正常退出，请确认后强制关闭并重试"))),
                )
            } else {
                StopAction::ForceExit
            }
        },
        StopPhase::AfterForcedWait { exited } => {
            if exited {
                StopAction::Finished(
                    ShutdownOutcome { closed: true, executable: first_matching_executable(matching) },
                )
            } else {
                StopAction::Failed(AppError::Message(string_of(&lit("ChatGPT 客户端强制关闭后仍在运行"))))
            }
        },
    }
}

/// Whether a running process with this executable is the client a target starts: for a
/// Store package, by the process's package family (`Ok(None)` where it has none), or by the
/// executable saved in the target where the family could not be read (`Err`); otherwise
/// by the executable path, or by the application bundle on macOS.
pub open spec fn matches_restart_target(t: RestartTarget, executable: Seq<char>, family: Result<Option<Seq<char>>, ()>) -> bool {
    match t {
        RestartTarget::MicrosoftStore { package_family_name, executable: expected, .. } => match family {
            Ok(Some(a)) => lower(a) == lower(package_family_name@),
            Ok(None) => false,
            Err(_) => match expected {
                Some(e) => paths_eq(e@, executable),
                None => false,
            },
        },
        RestartTarget::Standalone { executable: expected, .. } => paths_eq(expected@, executable),
        RestartTarget::LegacyPath { executable: expected, .. } => paths_eq(expected@, executable),
        RestartTarget::MacApplication { application } => has_prefix(
            normalized(executable),
            normalized(application@) + "\\contents\\macos\\"@,
        ),
    }
}

/// See [`matches_restart_target`]; `family` is the process's package family as read, or
/// the read error's text.
pub fn process_matches_target(target: &RestartTarget, executable: &str, family: &Result<Option<String>, String>) -> (r: bool)
    ensures
        r == matches_restart_target(*target, executable@, match family {
            Ok(Some(a)) => Ok(Some(a@)),
            Ok(None) => Ok(None),
            Err(_) => Err(()),
        }),
{
    match target {
        RestartTarget::MicrosoftStore { package_family_name, executable: expected, .. } => match family {
            Ok(Some(a)) => eq_ignore_case(&chars_of(a.as_str()), &chars_of(package_family_name.as_str())),
            Ok(None) => false,
            Err(_) => match expected {
                Some(e) => paths_equal(e.as_str(), executable),
                None => false,
            },
        },
        RestartTarget::Standalone { executable: expected, .. } => paths_equal(expected.as_str(), executable),
        RestartTarget::LegacyPath { executable: expected, .. } => paths_equal(expected.as_str(), executable),
        RestartTarget::MacApplication { application } => {
            let a = normalize_chars(&chars_of(executable));
            let prefix = concat(&normalize_chars(&chars_of(application.as_str())), &lit("\\contents\\macos\\"));
            starts_with(&a, &prefix)
        },
    }
}

// ---------------------------------------------------------------- forced restart and repair

/// The client to restart, short of looking for an installed one: the running client's
/// target, else the saved path's when that path exists and is a restartable client.
pub fn preferred_restart_target(
    running: Option<RestartTarget>,
    app_path: Option<&str>,
    app_exists: bool,
    os: Os,
) -> (r: Option<RestartTarget>)
    ensures
        running is Some ==> r == running,
        running is None ==> match app_path {
            Some(p) => if app_exists && restartable_application(p@, os) {
                target_for(p@, os, r)
            } else {
                r is None
            },
            None => r is None,
        },
{
    if running.is_some() {
        return running;
    }
    match app_path {
        Some(p) => {
            if app_exists && is_restartable_application_path(p, os) {
                target_from_executable(p, os)
            } else {
                None
            }
        },
        None => None,
    }
}

/// Where a forced restart (or a repair between stop and start) stands.
#[derive(Debug, Clone, Copy, PartialEq, Eq)]
pub enum RestartPhase {
    Begin,
    AfterExitWait { exited: bool },
    AfterRepair { ok: bool },
    AfterStartWait { started: bool },
}

/// What to do next: stop the client's process tree, repair, launch the target, hand back
/// the repair's own error, or finish (with whether a client was restarted) or fail.
#[derive(Debug, Clone)]
pub enum RestartAction {
    Finished(bool),
    StopTree { pids: Vec<u32> },
    Repair,
    Launch,
    ReturnRepairError,
    Failed(AppError),
}

pub open spec fn not_exited_message() -> Seq<char> {
    "ChatGPT 进程未能完全结束，已停止重启"@
}

pub open spec fn start_failed_message() -> Seq<char> {
    "ChatGPT 启动失败，请手动启动"@
}

pub open spec fn no_target_message() -> Seq<char> {
    "未检测到 ChatGPT 启动路径"@
}

fn copy_pids(v: &Vec<u32>) -> (r: Vec<u32>)
    ensures
        r@ == v@,
{
    let mut out: Vec<u32> = Vec::new();
    let mut i: usize = 0;
    while i < v.len()
        invariant
            i <= v.len(),
            out@ == v@.take(i as int),
        decreases v.len() - i,
    {
        out.push(v[i]);
        assert(out@ =~= v@.take(i + 1));
        i = i + 1;
    }
    assert(v@.take(v@.len() as int) =~= v@);
    out
}

/// `force_restart`, one decision at a time, given whether a target was found and the root
/// processes serving the home: nothing found finishes without a restart; otherwise the
/// running client, if any, is killed with its process tree and must be gone, then the
/// target is launched and must start.
pub fn force_restart(found: bool, root_pids: &Vec<u32>, phase: RestartPhase) -> (r: RestartAction)
    ensures
        match phase {
            RestartPhase::Begin => if !found {
                r matches RestartAction::Finished(b) && !b
            } else if root_pids@.len() == 0 {
                r is Launch
            } else {
                r matches RestartAction::StopTree { pids } && pids@ == root_pids@
            },
            RestartPhase::AfterExitWait { exited } => if exited {
                r is Launch
            } else {
                r matches RestartAction::Failed(e) && e is Message && e.text() == not_exited_message()
            },
            RestartPhase::AfterRepair { .. } => r is Launch,
            RestartPhase::AfterStartWait { started } => if started {
                r matches RestartAction::Finished(b) && b
            } else {
                r matches RestartAction::Failed(e) && e is Message && e.text() == start_failed_message()
            },
        },
{
    match phase {
        RestartPhase::Begin => {
            if !found {
                RestartAction::Finished(false)
            } else if root_pids.len() == 0 {
                RestartAction::Launch
            } else {
                RestartAction::StopTree { pids: copy_pids(root_pids) }
            }
        },
        RestartPhase::AfterExitWait { exited } => {
            if exited {
                RestartAction::Launch
            } else {
                RestartAction::Failed(AppError::Message("ChatGPT 进程未能完全结束，已停止重启".to_string()))
            }
        },
        RestartPhase::AfterRepair { .. } => RestartAction::Launch,
        RestartPhase::AfterStartWait { started } => {
            if started {
                RestartAction::Finished(true)
            } else {
                RestartAction::Failed(AppError::Message("ChatGPT 启动失败，请手动启动".to_string()))
            }
        },
    }
}

/// `repair_and_restart`, one decision at a time: the target must be found before anything
/// is stopped, so that the same client is restarted; the running client is killed with its
/// process tree and must be gone; then the repair runs, and its error is handed back as it
/// is; then the target is launched and must start.
pub fn repair_and_restart(found: bool, root_pids: &Vec<u32>, phase: RestartPhase) -> (r: RestartAction)
    ensures
        match phase {
            RestartPhase::Begin => if !found {
                r matches RestartAction::Failed(e) && e is Message && e.text() == no_target_message()
            } else if root_pids@.len() == 0 {
                r is Repair
            } else {
                r matches RestartAction::StopTree { pids } && pids@ == root_pids@
            },
            RestartPhase::AfterExitWait { exited } => if exited {
                r is Repair
            } else {
                r matches RestartAction::Failed(e) && e is Message && e.text() == not_exited_message()
            },
            RestartPhase::AfterRepair { ok } => if ok {
                r is Launch
            } else {
                r is ReturnRepairError
            },
            RestartPhase::AfterStartWait { started } => if started {
                r matches RestartAction::Finished(b) && b
            } else {
                r matches RestartAction::Failed(e) && e is Message && e.text() == start_failed_message()
            },
        },
{
    match phase {
        RestartPhase::Begin => {
            if !found {
                RestartAction::Failed(AppError::Message("未检测到 ChatGPT 启动路径".to_string()))
            } else if root_pids.len() == 0 {
                RestartAction::Repair
            } else {
                RestartAction::StopTree { pids: copy_pids(root_pids) }
            }
        },
        RestartPhase::AfterExitWait { exited } => {
            if exited {
                RestartAction::Repair
            } else {
                RestartAction::Failed(AppError::Message("ChatGPT 进程未能完全结束，已停止重启".to_string()))
            }
        },
        RestartPhase::AfterRepair { ok } => {
            if ok {
                RestartAction::Launch
            } else {
                RestartAction::ReturnRepairError
            }
        },
        RestartPhase::AfterStartWait { started } => {
            if started {
                RestartAction::Finished(true)
            } else {
                RestartAction::Failed(AppError::Message("ChatGPT 启动失败，请手动启动".to_string()))
            }
        },
    }
}

} // verus!
