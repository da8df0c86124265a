//! Paths as text, following the separator conventions of one operating system.
use vstd::prelude::*;

use crate::platform::Os;
use crate::text::{concat, lemma_trim_end_by, seq_eq, slice_of, trim_end_by};

verus! {

pub open spec fn is_sep(os: Os, c: char) -> bool {
    c == '/' || (os == Os::Windows && c == '\\')
}

pub open spec fn sep_pred(os: Os) -> spec_fn(char) -> bool {
    |c: char| is_sep(os, c)
}

pub fn is_separator(os: Os, c: char) -> (r: bool)
    ensures
        r == is_sep(os, c),
{
    c == '/' || (os == Os::Windows && c == '\\')
}

/// The path without its trailing separators.
pub open spec fn trim_seps(os: Os, s: Seq<char>) -> Seq<char> {
    trim_end_by(s, sep_pred(os))
}

/// Position of the last separator, or -1.
pub open spec fn last_sep(os: Os, s: Seq<char>) -> int
    decreases s.len(),
{
    if s.len() == 0 {
        -1
    } else if is_sep(os, s.last()) {
        s.len() - 1
    } else {
        last_sep(os, s.drop_last())
    }
}

/// An ASCII letter.
pub open spec fn is_ascii_letter(c: char) -> bool {
    ('a' <= c && c <= 'z') || ('A' <= c && c <= 'Z')
}

/// The path without a Windows drive prefix such as `C:`, which is no component.
pub open spec fn drive_stripped(os: Os, s: Seq<char>) -> Seq<char> {
    if os == Os::Windows && s.len() >= 2 && s[1] == ':' && is_ascii_letter(s[0]) {
        s.skip(2)
    } else {
        s
    }
}

/// The path without trailing separators and trailing `.` components (`a/b/.` is `a/b`),
/// as a path's components are read.
pub open spec fn dot_tail_stripped(os: Os, s: Seq<char>) -> Seq<char>
    decreases s.len(),
{
    if s.len() == 0 {
        s
    } else if is_sep(os, s.last()) {
        dot_tail_stripped(os, s.drop_last())
    } else if s.len() >= 2 && s.last() == '.' && is_sep(os, s[s.len() - 2]) {
        dot_tail_stripped(os, s.drop_last())
    } else {
        s
    }
}

/// The last component of a path (`Path::file_name`): the text after the last separator
/// once a drive prefix, trailing separators and trailing `.` components are set aside;
/// none for an empty or root path, for `.` or for `..`.
pub open spec fn file_name(os: Os, s: Seq<char>) -> Option<Seq<char>> {
    let t = trim_seps(os, dot_tail_stripped(os, drive_stripped(os, s)));
    let name = t.skip(last_sep(os, t) + 1);
    if name.len() == 0 || name == seq!['.', '.'] || name == seq!['.'] {
        None
    } else {
        Some(name)
    }
}

/// The path without its last component (`Path::parent`).
pub open spec fn parent(os: Os, s: Seq<char>) -> Option<Seq<char>> {
    let t = trim_seps(os, s);
    let k = last_sep(os, t);
    if t.len() == 0 {
        None
    } else if k < 0 {
        Some(Seq::<char>::empty())
    } else if trim_seps(os, t.take(k)).len() == 0 {
        Some(t.take(1))
    } else {
        Some(trim_seps(os, t.take(k)))
    }
}

/// Position of the last `.`, or -1.
pub open spec fn last_dot(s: Seq<char>) -> int
    decreases s.len(),
{
    if s.len() == 0 {
        -1
    } else if s.last() == '.' {
        s.len() - 1
    } else {
        last_dot(s.drop_last())
    }
}

/// The extension of a file name (`Path::extension`): the text after the last dot,
/// unless there is no dot or the only dot starts the name.
pub open spec fn extension_of(name: Seq<char>) -> Option<Seq<char>> {
    if name == seq!['.', '.'] || last_dot(name) <= 0 {
        None
    } else {
        Some(name.skip(last_dot(name) + 1))
    }
}

pub open spec fn separator(os: Os) -> char {
    if os == Os::Windows {
        '\\'
    } else {
        '/'
    }
}

/// `Path::join` with a relative path.
pub open spec fn join(os: Os, base: Seq<char>, rel: Seq<char>) -> Seq<char> {
    if base.len() == 0 {
        rel
    } else if is_sep(os, base.last()) {
        base + rel
    } else {
        base + seq![separator(os)] + rel
    }
}

proof fn lemma_last_sep(os: Os, s: Seq<char>, k: int)
    requires
        -1 <= k < s.len(),
        k >= 0 ==> is_sep(os, s[k]),
        forall|j: int| k < j < s.len() ==> !is_sep(os, #[trigger] s[j]),
    ensures
        last_sep(os, s) == k,
    decreases s.len(),
{
    if s.len() > 0 && k < s.len() - 1 {
        let t = s.drop_last();
        assert forall|j: int| k < j < t.len() implies !is_sep(os, #[trigger] t[j]) by {
            assert(t[j] == s[j]);
        }
        if k >= 0 {
            assert(t[k] == s[k]);
        }
        lemma_last_sep(os, t, k);
    }
}

proof fn lemma_last_dot(s: Seq<char>, k: int)
    requires
        -1 <= k < s.len(),
        k >= 0 ==> s[k] == '.',
        forall|j: int| k < j < s.len() ==> #[trigger] s[j] != '.',
    ensures
        last_dot(s) == k,
    decreases s.len(),
{
    if s.len() > 0 && k < s.len() - 1 {
        let t = s.drop_last();
        assert forall|j: int| k < j < t.len() implies #[trigger] t[j] != '.' by {
            assert(t[j] == s[j]);
        }
        if k >= 0 {
            assert(t[k] == s[k]);
        }
        lemma_last_dot(t, k);
    }
}

/// Trailing separators removed.
pub fn trim_separators(os: Os, s: &Vec<char>) -> (r: Vec<char>)
    ensures
        r@ == trim_seps(os, s@),
{
    let mut b: usize = s.len();
    while b > 0 && is_separator(os, s[b - 1])
        invariant
            b <= s.len(),
            forall|j: int| b <= j < s.len() ==> is_sep(os, s@[j]),
        decreases b,
    {
        b = b - 1;
    }
    proof {
        lemma_trim_end_by(s@, sep_pred(os), b as int);
    }
    slice_of(s, 0, b)
}

/// Position of the last separator.
pub fn find_last_sep(os: Os, s: &Vec<char>) -> (r: Option<usize>)
    ensures
        match r {
            Some(k) => k < s@.len() && last_sep(os, s@) == k,
            None => last_sep(os, s@) == -1,
        },
{
    let mut b: usize = s.len();
    while b > 0 && !is_separator(os, s[b - 1])
        invariant
            b <= s.len(),
            forall|j: int| b <= j < s.len() ==> !is_sep(os, #[trigger] s@[j]),
        decreases b,
    {
        b = b - 1;
    }
    if b == 0 {
        proof {
            lemma_last_sep(os, s@, -1);
        }
        None
    } else {
        proof {
            lemma_last_sep(os, s@, b - 1);
        }
        Some(b - 1)
    }
}

fn strip_drive(os: Os, s: &Vec<char>) -> (r: Vec<char>)
    ensures
        r@ == drive_stripped(os, s@),
{
    if os == Os::Windows && s.len() >= 2 && s[1] == ':' && (('a' <= s[0] && s[0] <= 'z') || ('A'
        <= s[0] && s[0] <= 'Z')) {
        let r = slice_of(s, 2, s.len());
        assert(r@ =~= s@.skip(2));
        r
    } else {
        slice_of(s, 0, s.len())
    }
}

fn strip_dot_tail(os: Os, s: &Vec<char>) -> (r: Vec<char>)
    ensures
        r@ == dot_tail_stripped(os, s@),
{
    let mut n: usize = s.len();
    assert(s@.take(n as int) =~= s@);
    while n > 0 && (is_separator(os, s[n - 1]) || (n >= 2 && s[n - 1] == '.' && is_separator(
        os,
        s[n - 2],
    )))
        invariant
            n <= s.len(),
            dot_tail_stripped(os, s@.take(n as int)) == dot_tail_stripped(os, s@),
        decreases n,
    {
        let ghost t = s@.take(n as int);
        assert(t.drop_last() =~= s@.take(n - 1));
        n = n - 1;
    }
    let r = slice_of(s, 0, n);
    assert(r@ =~= s@.take(n as int));
    r
}

pub fn path_file_name(os: Os, s: &Vec<char>) -> (r: Option<Vec<char>>)
    ensures
        match r {
            Some(v) => file_name(os, s@) == Some(v@),
            None => file_name(os, s@).is_none(),
        },
{
    let d = strip_drive(os, s);
    let u = strip_dot_tail(os, &d);
    let t = trim_separators(os, &u);
    let found = find_last_sep(os, &t);
    let start: usize = match found {
        Some(k) => {
            assert(k < t@.len());
            assert(t@.len() == t.len());
            k + 1
        },
        None => 0,
    };
    let name = slice_of(&t, start, t.len());
    assert(name@ =~= t@.skip(last_sep(os, t@) + 1));
    let dots = vec!['.', '.'];
    let dot = vec!['.'];
    assert(dots@ =~= seq!['.', '.']);
    assert(dot@ =~= seq!['.']);
    if name.len() == 0 || seq_eq(&name, &dots) || seq_eq(&name, &dot) {
        None
    } else {
        Some(name)
    }
}

pub fn path_parent(os: Os, s: &Vec<char>) -> (r: Option<Vec<char>>)
    ensures
        match r {
            Some(v) => parent(os, s@) == Some(v@),
            None => parent(os, s@).is_none(),
        },
{
    let t = trim_separators(os, s);
    if t.len() == 0 {
        return None;
    }
    match find_last_sep(os, &t) {
        None => Some(Vec::new()),
        Some(k) => {
            let head = slice_of(&t, 0, k);
            assert(head@ =~= t@.take(k as int));
            let p = trim_separators(os, &head);
            if p.len() == 0 {
                let root = slice_of(&t, 0, 1);
                assert(root@ =~= t@.take(1));
                Some(root)
            } else {
                Some(p)
            }
        },
    }
}

pub fn file_extension(name: &Vec<char>) -> (r: Option<Vec<char>>)
    ensures
        match r {
            Some(v) => extension_of(name@) == Some(v@),
            None => extension_of(name@).is_none(),
        },
{
    let dots = vec!['.', '.'];
    if seq_eq(name, &dots) {
        return None;
    }
    let mut b: usize = name.len();
    while b > 0 && name[b - 1] != '.'
        invariant
            b <= name.len(),
            forall|j: int| b <= j < name.len() ==> #[trigger] name@[j] != '.',
        decreases b,
    {
        b = b - 1;
    }
    proof {
        lemma_last_dot(name@, b - 1);
    }
    if b <= 1 {
        None
    } else {
        let ext = slice_of(name, b, name.len());
        assert(ext@ =~= name@.skip(b as int));
        Some(ext)
    }
}

pub fn path_join(os: Os, base: &Vec<char>, rel: &Vec<char>) -> (r: Vec<char>)
    ensures
        r@ == join(os, base@, rel@),
{
    if base.len() == 0 {
        return rel.clone();
    }
    if is_separator(os, base[base.len() - 1]) {
        concat(base, rel)
    } else {
        let mut b = base.clone();
        b.push(if os == Os::Windows { '\\' } else { '/' });
        concat(&b, rel)
    }
}

/// `t.take(e)` is an ancestor of `t`: it ends a component.
pub open spec fn ancestor_end(os: Os, t: Seq<char>, e: int) -> bool {
    0 < e <= t.len() && (e == t.len() || is_sep(os, t[e])) && !is_sep(os, t[e - 1])
}

/// The deepest ancestor of `t`, among those ending at or before `e`, whose name
/// has the extension `app`.
pub open spec fn app_ancestor_upto(os: Os, t: Seq<char>, e: int) -> Option<Seq<char>>
    decreases e,
{
    if e <= 0 {
        None
    } else if ancestor_end(os, t, e) && is_app_name(os, t.take(e)) {
        Some(t.take(e))
    } else {
        app_ancestor_upto(os, t, e - 1)
    }
}

pub open spec fn is_app_name(os: Os, p: Seq<char>) -> bool {
    match file_name(os, p) {
        Some(n) => extension_of(n) == Some(seq!['a', 'p', 'p']),
        None => false,
    }
}

/// The nearest enclosing `.app` bundle of a path, the path itself included.
pub open spec fn app_ancestor(os: Os, s: Seq<char>) -> Option<Seq<char>> {
    let t = trim_seps(os, s);
    app_ancestor_upto(os, t, t.len() as int)
}

pub fn has_app_extension(os: Os, p: &Vec<char>) -> (r: bool)
    ensures
        r == is_app_name(os, p@),
{
    match path_file_name(os, p) {
        Some(n) => match file_extension(&n) {
            Some(e) => {
                let app = vec!['a', 'p', 'p'];
                seq_eq(&e, &app)
            },
            None => false,
        },
        None => false,
    }
}

pub fn find_app_ancestor(os: Os, s: &Vec<char>) -> (r: Option<Vec<char>>)
    ensures
        match r {
            Some(v) => app_ancestor(os, s@) == Some(v@),
            None => app_ancestor(os, s@).is_none(),
        },
{
    let t = trim_separators(os, s);
    let mut e: usize = t.len();
    while e > 0
        invariant
            e <= t.len(),
            t@ == trim_seps(os, s@),
            app_ancestor_upto(os, t@, e as int) == app_ancestor_upto(os, t@, t@.len() as int),
        decreases e,
    {
        let ends = (e == t.len() || is_separator(os, t[e])) && !is_separator(os, t[e - 1]);
        if ends {
            let prefix = slice_of(&t, 0, e);
            assert(prefix@ =~= t@.take(e as int));
            if has_app_extension(os, &prefix) {
                assert(ancestor_end(os, t@, e as int));
                assert(app_ancestor_upto(os, t@, e as int) == Some(t@.take(e as int)));
                return Some(prefix);
            }
        }
        e = e - 1;
    }
    None
}

/// The non-empty components of a path, in order.
pub open spec fn component_at(os: Os, s: Seq<char>, a: int, b: int) -> bool {
    0 <= a < b <= s.len() && (a == 0 || is_sep(os, s[a - 1])) && (b == s.len() || is_sep(
        os,
        s[b],
    )) && forall|j: int| a <= j < b ==> !is_sep(os, #[trigger] s[j])
}

} // verus!
