//! The managed block of image rules inside a Codex `AGENTS.md` file.
//!
//! The block is delimited by a begin line and an end line; the text around it
//! belongs to the user and is kept exactly as it was.
use vstd::prelude::*;
use vstd::utf8::{decode_utf8, encode_utf8, valid_utf8};

use crate::platform::Os;
use crate::text::{
    concat, contains, contains_seq, ends_with, has_suffix, index_of, is_blank, lemma_index_of, lemma_index_of_bounds, lemma_trim_end_by, lemma_trim_start_by, lit,
    matches_at, occurs_at, replace, replace_all, seq_eq, slice_of, string_of, strip_prefixes,
    trim_by, trim_start_matches, all_ws,
};

verus! {

broadcast use vstd::string::group_string_axioms;

// ---------------------------------------------------------------------------
// The fixed texts
// ---------------------------------------------------------------------------

pub open spec fn begin_marker() -> Seq<char> {
    "<!-- ChatGPT账号工具:generate-image:start -->"@
}

pub open spec fn end_marker() -> Seq<char> {
    "<!-- ChatGPT账号工具:generate-image:end -->"@
}

pub open spec fn rules_text() -> Seq<char> {
    "## 生图与改图\n\n生成图片必须调用 Generate image MCP 的 `generate_image` 工具。\n修改图片必须调用 Generate image MCP 的 `edit_image` 工具。\n不要使用内置 `imagegen` 技能。若工具不可用，告知用户在 ChatGPT中转工具中点击“使用生图”或“修复生图”并重启 ChatGPT；不要自动改用其他生图工具。"@
}

pub open spec fn marker_error() -> Seq<char> {
    "AGENTS.md 中的生图配置标记不完整，请先修复该文件"@
}

pub open spec fn encoding_error() -> Seq<char> {
    "AGENTS.md 不是有效的 UTF-8 文本，无法安全更新生图规则"@
}

/// Facts about the two markers that the scanning relies on.
pub proof fn lemma_markers()
    ensures
        begin_marker().len() > 0,
        end_marker().len() > 0,
        begin_marker() != end_marker(),
{
    reveal_strlit("<!-- ChatGPT账号工具:generate-image:start -->");
    reveal_strlit("<!-- ChatGPT账号工具:generate-image:end -->");
    assert(begin_marker()[34] != end_marker()[34]);
}

fn begin_text() -> (r: Vec<char>)
    ensures
        r@ == begin_marker(),
{
    lit("<!-- ChatGPT账号工具:generate-image:start -->")
}

fn end_text() -> (r: Vec<char>)
    ensures
        r@ == end_marker(),
{
    lit("<!-- ChatGPT账号工具:generate-image:end -->")
}

fn rules() -> (r: Vec<char>)
    ensures
        r@ == rules_text(),
{
    lit(
        "## 生图与改图\n\n生成图片必须调用 Generate image MCP 的 `generate_image` 工具。\n修改图片必须调用 Generate image MCP 的 `edit_image` 工具。\n不要使用内置 `imagegen` 技能。若工具不可用，告知用户在 ChatGPT中转工具中点击“使用生图”或“修复生图”并重启 ChatGPT；不要自动改用其他生图工具。",
    )
}

/// The message given for missing, repeated or stray markers.
pub fn image_agents_marker_error() -> (r: String)
    ensures
        r@ == marker_error(),
{
    "AGENTS.md 中的生图配置标记不完整，请先修复该文件".to_string()
}

fn encoding_error_message() -> (r: String)
    ensures
        r@ == encoding_error(),
{
    "AGENTS.md 不是有效的 UTF-8 文本，无法安全更新生图规则".to_string()
}

// ---------------------------------------------------------------------------
// Lines
// ---------------------------------------------------------------------------

pub open spec fn is_blank_or_tab(c: char) -> bool {
    c == ' ' || c == '\t'
}

pub open spec fn blank_or_tab() -> spec_fn(char) -> bool {
    |c: char| is_blank_or_tab(c)
}

/// Where the line that starts at `s` ends: just past its `'\n'`, or at the end of the text.
pub open spec fn line_end(t: Seq<char>, s: int) -> int {
    let k = index_of(t.skip(s), '\n');
    if s + k < t.len() {
        s + k + 1
    } else {
        t.len() as int
    }
}

/// The line `s..e` without its line break (`\n`, then `\r`) and without surrounding
/// blanks and tabs.
pub open spec fn line_content(t: Seq<char>, s: int, e: int) -> Seq<char> {
    let l = t.subrange(s, e);
    let a = if l.len() > 0 && l.last() == '\n' {
        l.drop_last()
    } else {
        l
    };
    let b = if a.len() > 0 && a.last() == '\r' {
        a.drop_last()
    } else {
        a
    };
    trim_by(b, blank_or_tab())
}

pub proof fn lemma_line_end(t: Seq<char>, s: int)
    requires
        0 <= s < t.len(),
    ensures
        s < line_end(t, s) <= t.len(),
{
    lemma_index_of_bounds(t.skip(s), '\n');
}

/// Scanning the lines from `s`, with a begin line at `open` still unclosed: the blocks
/// found, each from the start of its begin line to the end of its end line, or `None`
/// when a begin line repeats before its end, an end line has no begin, or the text ends
/// inside a block.
pub open spec fn scan_blocks(t: Seq<char>, s: int, open: Option<int>) -> Option<Seq<(int, int)>>
    decreases t.len() - s,
{
    if s < 0 || s >= t.len() {
        if open is Some {
            None
        } else {
            Some(seq![])
        }
    } else {
        let e = line_end(t, s);
        proof {
            lemma_line_end(t, s);
        }
        let c = line_content(t, s, e);
        if c == begin_marker() {
            if open is Some {
                None
            } else {
                scan_blocks(t, e, Some(s))
            }
        } else if c == end_marker() {
            match open {
                None => None,
                Some(st) => match scan_blocks(t, e, None) {
                    Some(rest) => Some(seq![(st, e)] + rest),
                    None => None,
                },
            }
        } else {
            scan_blocks(t, e, open)
        }
    }
}

/// The number of lines from `s` on whose content is exactly `m`.
pub open spec fn marker_lines(t: Seq<char>, s: int, m: Seq<char>) -> nat
    decreases t.len() - s,
{
    if s < 0 || s >= t.len() {
        0
    } else {
        let e = line_end(t, s);
        proof {
            lemma_line_end(t, s);
        }
        (if line_content(t, s, e) == m {
            1nat
        } else {
            0nat
        }) + marker_lines(t, e, m)
    }
}

/// The number of matches of `m` from `i` on, counted left to right without overlap.
pub open spec fn count_matches(t: Seq<char>, m: Seq<char>, i: int) -> nat
    decreases t.len() - i,
{
    if i < 0 || i >= t.len() {
        0
    } else if m.len() > 0 && occurs_at(t, m, i) {
        1 + count_matches(t, m, i + m.len())
    } else {
        count_matches(t, m, i + 1)
    }
}

/// The managed blocks of a text, in order, or `None` when its markers are not well
/// paired: every marker must stand alone on its line, and every begin must be closed by an
/// end before the next begin.
pub open spec fn block_ranges(t: Seq<char>) -> Option<Seq<(int, int)>> {
    match scan_blocks(t, 0, None) {
        Some(r) => if marker_lines(t, 0, begin_marker()) == count_matches(t, begin_marker(), 0)
            && marker_lines(t, 0, end_marker()) == count_matches(t, end_marker(), 0) {
            Some(r)
        } else {
            None
        },
        None => None,
    }
}

pub open spec fn ranges_view(v: Seq<(usize, usize)>) -> Seq<(int, int)> {
    v.map_values(|p: (usize, usize)| (p.0 as int, p.1 as int))
}

/// Blocks lie inside the text, are not empty, and come in order without overlapping.
pub open spec fn ranges_ok(rs: Seq<(int, int)>, len: int) -> bool {
    forall|i: int|
        0 <= i < rs.len() ==> {
            &&& 0 <= (#[trigger] rs[i]).0 < rs[i].1 <= len
            &&& (i > 0 ==> rs[i - 1].1 <= rs[i].0)
        }
}

pub proof fn lemma_scan_ok(t: Seq<char>, s: int, open: Option<int>)
    requires
        0 <= s,
        open matches Some(st) ==> 0 <= st < s,
    ensures
        scan_blocks(t, s, open) matches Some(rs) ==> {
            &&& ranges_ok(rs, t.len() as int)
            &&& rs.len() > 0 ==> rs[0].0 >= (match open {
                Some(st) => st,
                None => s,
            })
        },
    decreases t.len() - s,
{
    if s < t.len() {
        let e = line_end(t, s);
        lemma_line_end(t, s);
        let c = line_content(t, s, e);
        if c == begin_marker() {
            if open is None {
                lemma_scan_ok(t, e, Some(s));
            }
        } else if c == end_marker() {
            if let Some(st) = open {
                lemma_scan_ok(t, e, None);
                if let Some(rest) = scan_blocks(t, e, None) {
                    let rs = seq![(st, e)] + rest;
                    assert forall|i: int| 0 <= i < rs.len() implies {
                        &&& 0 <= (#[trigger] rs[i]).0 < rs[i].1 <= t.len()
                        &&& (i > 0 ==> rs[i - 1].1 <= rs[i].0)
                    } by {
                        if i > 0 {
                            assert(rs[i] == rest[i - 1]);
                            if i > 1 {
                                assert(rs[i - 1] == rest[i - 2]);
                            }
                        }
                    }
                }
            }
        } else {
            lemma_scan_ok(t, e, open);
        }
    }
}

/// The end of the line that starts at `s`.
fn line_end_at(t: &Vec<char>, s: usize) -> (r: usize)
    requires
        s < t.len(),
    ensures
        r == line_end(t@, s as int),
        s < r <= t.len(),
{
    let mut i: usize = s;
    while i < t.len() && t[i] != '\n'
        invariant
            s <= i <= t.len(),
            forall|j: int| s <= j < i ==> t@[j] != '\n',
        decreases t.len() - i,
    {
        i = i + 1;
    }
    proof {
        let rest = t@.skip(s as int);
        assert forall|j: int| 0 <= j < i - s implies #[trigger] rest[j] != '\n' by {
            assert(rest[j] == t@[s + j]);
        }
        if i < t.len() {
            assert(rest[i - s] == t@[i as int]);
        }
        lemma_index_of(rest, '\n', i - s);
    }
    if i < t.len() {
        i + 1
    } else {
        i
    }
}

/// `trim_matches` on blanks and tabs.
fn trim_blanks(s: &Vec<char>) -> (r: Vec<char>)
    ensures
        r@ == trim_by(s@, blank_or_tab()),
{
    let mut a: usize = 0;
    while a < s.len() && (s[a] == ' ' || s[a] == '\t')
        invariant
            a <= s.len(),
            forall|j: int| 0 <= j < a ==> is_blank_or_tab(#[trigger] s@[j]),
        decreases s.len() - a,
    {
        a = a + 1;
    }
    proof {
        lemma_trim_start_by(s@, blank_or_tab(), a as int);
    }
    let mut b: usize = s.len();
    while b > a && (s[b - 1] == ' ' || s[b - 1] == '\t')
        invariant
            a <= b <= s.len(),
            forall|j: int| b <= j < s.len() ==> is_blank_or_tab(#[trigger] s@[j]),
        decreases b,
    {
        b = b - 1;
    }
    let ghost t = s@.skip(a as int);
    proof {
        assert forall|j: int| b - a <= j < t.len() implies (blank_or_tab())(#[trigger] t[j]) by {
            assert(t[j] == s@[j + a]);
        }
        if b > a {
            assert(t[b - a - 1] == s@[b - 1]);
        }
        lemma_trim_end_by(t, blank_or_tab(), b - a);
        assert(t.subrange(0, b - a) =~= s@.subrange(a as int, b as int));
    }
    slice_of(s, a, b)
}

/// The content of the line `s..e`.
fn line_content_of(t: &Vec<char>, s: usize, e: usize) -> (r: Vec<char>)
    requires
        s < e <= t.len(),
    ensures
        r@ == line_content(t@, s as int, e as int),
{
    let mut c = e;
    if t[c - 1] == '\n' {
        c = c - 1;
    }
    if c > s && t[c - 1] == '\r' {
        c = c - 1;
    }
    let inner = slice_of(t, s, c);
    proof {
        let l = t@.subrange(s as int, e as int);
        let a = if l.len() > 0 && l.last() == '\n' {
            l.drop_last()
        } else {
            l
        };
        let b = if a.len() > 0 && a.last() == '\r' {
            a.drop_last()
        } else {
            a
        };
        assert(b =~= inner@);
    }
    trim_blanks(&inner)
}

/// The number of matches of a non-empty `m`, left to right without overlap.
fn count_marker_matches(t: &Vec<char>, m: &Vec<char>) -> (r: usize)
    requires
        m.len() > 0,
    ensures
        r == count_matches(t@, m@, 0),
{
    let mut n: usize = 0;
    let mut i: usize = 0;
    while i < t.len()
        invariant
            m.len() > 0,
            i <= t.len() + m.len(),
            n <= i,
            n + count_matches(t@, m@, i as int) == count_matches(t@, m@, 0),
        decreases t.len() - i,
    {
        if matches_at(t, m, i) {
            n = n + 1;
            i = i + m.len();
        } else {
            i = i + 1;
        }
    }
    n
}

pub open spec fn opt_int(o: Option<usize>) -> Option<int> {
    match o {
        Some(v) => Some(v as int),
        None => None,
    }
}

pub open spec fn prefixed(acc: Seq<(int, int)>, r: Option<Seq<(int, int)>>) -> Option<Seq<(int, int)>> {
    match r {
        Some(rest) => Some(acc + rest),
        None => None,
    }
}

/// The managed blocks of a text (see [`block_ranges`]).
pub fn image_agents_block_ranges(t: &Vec<char>) -> (r: Result<Vec<(usize, usize)>, String>)
    ensures
        match r {
            Ok(v) => block_ranges(t@) == Some(ranges_view(v@)),
            Err(e) => block_ranges(t@) is None && e@ == marker_error(),
        },
{
    let begin = begin_text();
    let end = end_text();
    proof {
        lemma_markers();
    }
    let mut ranges: Vec<(usize, usize)> = Vec::new();
    let mut open: Option<usize> = None;
    let mut offset: usize = 0;
    let mut nb: usize = 0;
    let mut ne: usize = 0;
    assert(ranges_view(ranges@) =~= seq![]);
    assert(seq![] + scan_blocks(t@, 0, None)->0 =~= scan_blocks(t@, 0, None)->0);
    while offset < t.len()
        invariant
            offset <= t.len(),
            begin@ == begin_marker(),
            end@ == end_marker(),
            open matches Some(st) ==> st < offset,
            begin_marker().len() > 0,
            end_marker().len() > 0,
            begin_marker() != end_marker(),
            prefixed(ranges_view(ranges@), scan_blocks(t@, offset as int, opt_int(open)))
                == scan_blocks(t@, 0, None),
            nb + marker_lines(t@, offset as int, begin_marker()) == marker_lines(
                t@,
                0,
                begin_marker(),
            ),
            ne + marker_lines(t@, offset as int, end_marker()) == marker_lines(t@, 0, end_marker()),
            nb <= offset,
            ne <= offset,
        decreases t.len() - offset,
    {
        let e = line_end_at(t, offset);
        let c = line_content_of(t, offset, e);
        if seq_eq(&c, &begin) {
            nb = nb + 1;
            if open.is_some() {
                return Err(image_agents_marker_error());
            }
            open = Some(offset);
        } else if seq_eq(&c, &end) {
            ne = ne + 1;
            match open {
                None => {
                    return Err(image_agents_marker_error());
                },
                Some(st) => {
                    let ghost before = ranges_view(ranges@);
                    ranges.push((st, e));
                    assert(ranges_view(ranges@) =~= before + seq![(st as int, e as int)]);
                    proof {
                        if let Some(rest) = scan_blocks(t@, e as int, None) {
                            assert(before + (seq![(st as int, e as int)] + rest) =~= (before
                                + seq![(st as int, e as int)]) + rest);
                        }
                    }
                    open = None;
                },
            }
        }
        offset = e;
    }
    if open.is_some() {
        return Err(image_agents_marker_error());
    }
    proof {
        assert(ranges_view(ranges@) + seq![] =~= ranges_view(ranges@));
    }
    let bc = count_marker_matches(t, &begin);
    let ec = count_marker_matches(t, &end);
    if nb != bc || ne != ec {
        return Err(image_agents_marker_error());
    }
    Ok(ranges)
}

// ---------------------------------------------------------------------------
// Rewriting the text
// ---------------------------------------------------------------------------

pub open spec fn crlf() -> Seq<char> {
    seq!['\r', '\n']
}

pub open spec fn lf() -> Seq<char> {
    seq!['\n']
}

/// The line break the file already uses: CRLF if it has one, else LF if it has one,
/// else the platform's own.
pub open spec fn agents_newline(t: Seq<char>, os: Os) -> Seq<char> {
    if contains(t, crlf()) {
        crlf()
    } else if contains(t, lf()) {
        lf()
    } else if os == Os::Windows {
        crlf()
    } else {
        lf()
    }
}

/// The canonical managed block, written with the given line break.
pub open spec fn image_agents_block(nl: Seq<char>) -> Seq<char> {
    begin_marker() + nl + replace_all(rules_text(), lf(), nl) + nl + end_marker()
}

/// `block` appended after the text, separated from it by an empty line, and followed by
/// a line break.
pub open spec fn appended(t: Seq<char>, block: Seq<char>, nl: Seq<char>) -> Seq<char> {
    let sep = if t.len() == 0 {
        seq![]
    } else if has_suffix(t, nl + nl) {
        seq![]
    } else if has_suffix(t, nl) {
        nl
    } else {
        nl + nl
    };
    t + sep + block + nl
}

/// The text with the blocks `rs[i..]` cut out, starting from `cursor`; at the first block
/// `repl` takes its place, followed by a line break when the block ended with one.
pub open spec fn rebuild(
    t: Seq<char>,
    rs: Seq<(int, int)>,
    i: int,
    cursor: int,
    repl: Option<Seq<char>>,
    nl: Seq<char>,
) -> Seq<char>
    decreases rs.len() - i,
{
    if i < 0 || i >= rs.len() {
        t.subrange(cursor, t.len() as int)
    } else {
        let st = rs[i].0;
        let en = rs[i].1;
        let inserted = if i == 0 {
            match repl {
                Some(r) => r + (if en > st && t[en - 1] == '\n' {
                    nl
                } else {
                    seq![]
                }),
                None => seq![],
            }
        } else {
            seq![]
        };
        t.subrange(cursor, st) + inserted + rebuild(t, rs, i + 1, en, repl, nl)
    }
}

/// The text after the update: with `ensure`, exactly one canonical block (in place of the
/// first existing one, or appended); without, no block at all. `None` when the markers
/// are not well paired.
pub open spec fn updated_text(t: Seq<char>, ensure: bool, nl: Seq<char>) -> Option<Seq<char>> {
    match block_ranges(t) {
        None => None,
        Some(rs) => Some(
            if ensure {
                if rs.len() == 0 {
                    appended(t, image_agents_block(nl), nl)
                } else {
                    rebuild(t, rs, 0, 0, Some(image_agents_block(nl)), nl)
                }
            } else if rs.len() == 0 {
                t
            } else {
                rebuild(t, rs, 0, 0, None, nl)
            },
        ),
    }
}

/// The line break of a text (see [`agents_newline`]).
pub fn newline_of(t: &Vec<char>, os: Os) -> (r: Vec<char>)
    ensures
        r@ == agents_newline(t@, os),
{
    let crlf_v: Vec<char> = vec!['\r', '\n'];
    let lf_v: Vec<char> = vec!['\n'];
    assert(crlf_v@ =~= crlf());
    assert(lf_v@ =~= lf());
    if contains_seq(t, &crlf_v) {
        crlf_v
    } else if contains_seq(t, &lf_v) {
        lf_v
    } else {
        match os {
            Os::Windows => crlf_v,
            _ => lf_v,
        }
    }
}

/// The canonical block (see [`image_agents_block`]).
pub fn image_agents_block_text(nl: &Vec<char>) -> (r: Vec<char>)
    ensures
        r@ == image_agents_block(nl@),
{
    let lf_v: Vec<char> = vec!['\n'];
    assert(lf_v@ =~= lf());
    let body = replace(&rules(), &lf_v, nl);
    let a = concat(&begin_text(), nl);
    let b = concat(&a, &body);
    let c = concat(&b, nl);
    concat(&c, &end_text())
}

/// The text with `block` appended (see [`appended`]).
pub fn append_image_agents_block(t: &Vec<char>, block: &Vec<char>, nl: &Vec<char>) -> (r: Vec<char>)
    ensures
        r@ == appended(t@, block@, nl@),
{
    let mut out = t.clone();
    if t.len() > 0 {
        let twice = concat(nl, nl);
        if ends_with(t, &twice) {
        } else if ends_with(t, nl) {
            out = concat(&out, nl);
        } else {
            out = concat(&out, &twice);
        }
    }
    assert(out@ =~= t@ + (if t@.len() == 0 {
        seq![]
    } else if has_suffix(t@, nl@ + nl@) {
        seq![]
    } else if has_suffix(t@, nl@) {
        nl@
    } else {
        nl@ + nl@
    }));
    let out2 = concat(&out, block);
    concat(&out2, nl)
}

/// The text with its blocks cut out and `replacement` at the first one (see [`rebuild`]).
pub fn replace_image_agents_blocks(
    t: &Vec<char>,
    ranges: &Vec<(usize, usize)>,
    replacement: Option<&Vec<char>>,
    nl: &Vec<char>,
) -> (r: Vec<char>)
    requires
        ranges_ok(ranges_view(ranges@), t@.len() as int),
    ensures
        r@ == rebuild(
            t@,
            ranges_view(ranges@),
            0,
            0,
            match replacement {
                Some(v) => Some(v@),
                None => None,
            },
            nl@,
        ),
{
    let ghost rs = ranges_view(ranges@);
    let ghost repl = match replacement {
        Some(v) => Some(v@),
        None => None,
    };
    let mut out: Vec<char> = Vec::new();
    let mut cursor: usize = 0;
    let mut i: usize = 0;
    assert(out@ + rebuild(t@, rs, 0, 0, repl, nl@) =~= rebuild(t@, rs, 0, 0, repl, nl@));
    while i < ranges.len()
        invariant
            rs == ranges_view(ranges@),
            ranges_ok(rs, t@.len() as int),
            i <= ranges.len(),
            cursor <= t.len(),
            i > 0 ==> cursor == rs[i - 1].1,
            i == 0 ==> cursor == 0,
            repl == match replacement {
                Some(v) => Some(v@),
                None => None,
            },
            out@ + rebuild(t@, rs, i as int, cursor as int, repl, nl@) == rebuild(
                t@,
                rs,
                0,
                0,
                repl,
                nl@,
            ),
        decreases ranges.len() - i,
    {
        let (st, en) = ranges[i];
        assert(rs[i as int] == (st as int, en as int));
        let piece = slice_of(t, cursor, st);
        let ghost before = out@;
        out = concat(&out, &piece);
        let ghost inserted: Seq<char> = seq![];
        if i == 0 {
            match replacement {
                Some(v) => {
                    out = concat(&out, v);
                    if t[en - 1] == '\n' {
                        out = concat(&out, nl);
                        proof {
                            inserted = v@ + nl@;
                        }
                    } else {
                        proof {
                            inserted = v@ + seq![];
                        }
                    }
                },
                None => {},
            }
        }
        proof {
            let next = rebuild(t@, rs, i + 1, en as int, repl, nl@);
            assert(rebuild(t@, rs, i as int, cursor as int, repl, nl@) == t@.subrange(
                cursor as int,
                st as int,
            ) + inserted + next);
            assert(out@ =~= before + t@.subrange(cursor as int, st as int) + inserted);
            assert(before + (t@.subrange(cursor as int, st as int) + inserted + next) =~= out@
                + next);
        }
        cursor = en;
        i = i + 1;
    }
    let rest = slice_of(t, cursor, t.len());
    concat(&out, &rest)
}

/// The updated text (see [`updated_text`]); the error is the marker message.
pub fn update_text(t: &Vec<char>, ensure: bool, nl: &Vec<char>) -> (r: Result<Vec<char>, String>)
    ensures
        match r {
            Ok(u) => updated_text(t@, ensure, nl@) == Some(u@),
            Err(e) => updated_text(t@, ensure, nl@) is None && e@ == marker_error(),
        },
{
    let ranges = match image_agents_block_ranges(t) {
        Ok(v) => v,
        Err(e) => return Err(e),
    };
    proof {
        lemma_scan_ok(t@, 0, None);
    }
    if ensure {
        let canonical = image_agents_block_text(nl);
        if ranges.len() == 0 {
            Ok(append_image_agents_block(t, &canonical, nl))
        } else {
            Ok(replace_image_agents_blocks(t, &ranges, Some(&canonical), nl))
        }
    } else if ranges.len() == 0 {
        Ok(t.clone())
    } else {
        Ok(replace_image_agents_blocks(t, &ranges, None, nl))
    }
}

// ---------------------------------------------------------------------------
// The file's bytes
// ---------------------------------------------------------------------------

pub open spec fn bom() -> Seq<u8> {
    seq![0xefu8, 0xbbu8, 0xbfu8]
}

pub open spec fn has_bom(b: Seq<u8>) -> bool {
    b.len() >= 3 && b[0] == 0xefu8 && b[1] == 0xbbu8 && b[2] == 0xbfu8
}

/// The bytes after a leading byte order mark, if there is one.
pub open spec fn payload(b: Seq<u8>) -> Seq<u8> {
    if has_bom(b) {
        b.skip(3)
    } else {
        b
    }
}

/// The decoded text of the file, without its byte order mark.
pub open spec fn payload_text(b: Seq<u8>) -> Seq<char> {
    decode_utf8(payload(b))
}

/// The text after the update, when the payload is valid UTF-8 and the markers are well
/// paired.
pub open spec fn updated_payload(b: Seq<u8>, ensure: bool, os: Os) -> Option<Seq<char>> {
    if valid_utf8(payload(b)) {
        updated_text(payload_text(b), ensure, agents_newline(payload_text(b), os))
    } else {
        None
    }
}

/// The file's bytes after the update: the byte order mark kept as it was, then the
/// updated text in UTF-8.
pub open spec fn encoded(b: Seq<u8>, u: Seq<char>) -> Seq<u8> {
    (if has_bom(b) {
        bom()
    } else {
        seq![]
    }) + encode_utf8(u)
}

/// The message of `std::str::from_utf8`'s error for bytes that are not valid UTF-8 (it
/// says where they stop being so).
pub uninterp spec fn utf8_error_text(bytes: Seq<u8>) -> Seq<char>;

/// `std::str::from_utf8`: the text the bytes encode, when they are valid UTF-8, else the
/// error's message.
#[verifier::external_body]
pub(crate) fn utf8_text(bytes: &[u8]) -> (r: Result<String, String>)
    ensures
        r is Ok <==> valid_utf8(bytes@),
        r matches Ok(s) ==> s@ == decode_utf8(bytes@),
        r matches Err(m) ==> m@ == utf8_error_text(bytes@),
{
    match std::str::from_utf8(bytes) {
        Ok(text) => Ok(text.to_owned()),
        Err(error) => Err(error.to_string()),
    }
}

/// The UTF-8 bytes of a text.
pub(crate) fn utf8_bytes(v: &Vec<char>) -> (r: Vec<u8>)
    ensures
        r@ == encode_utf8(v@),
{
    let s = string_of(v);
    let b = s.as_str().as_bytes();
    let mut out: Vec<u8> = Vec::new();
    let mut i: usize = 0;
    while i < b.len()
        invariant
            i <= b@.len(),
            b@ == encode_utf8(v@),
            out@ == b@.subrange(0, i as int),
        decreases b@.len() - i,
    {
        out.push(b[i]);
        assert(out@ =~= b@.subrange(0, i + 1));
        i = i + 1;
    }
    assert(out@ =~= b@);
    out
}

/// Whether the bytes start with a byte order mark, and the bytes after it.
fn split_bom(bytes: &[u8]) -> (r: (bool, Vec<u8>))
    ensures
        r.0 == has_bom(bytes@),
        r.1@ == payload(bytes@),
{
    let n = bytes.len();
    let marked = n >= 3 && bytes[0] == 0xef && bytes[1] == 0xbb && bytes[2] == 0xbf;
    let start: usize = if marked {
        3
    } else {
        0
    };
    let mut out: Vec<u8> = Vec::new();
    let mut i: usize = start;
    while i < n
        invariant
            n == bytes@.len(),
            start <= i <= n,
            start <= n,
            out@ == bytes@.subrange(start as int, i as int),
        decreases n - i,
    {
        out.push(bytes[i]);
        assert(out@ =~= bytes@.subrange(start as int, i + 1));
        i = i + 1;
    }
    assert(out@ =~= payload(bytes@));
    (marked, out)
}

/// The updated text of the file and whether it had a byte order mark, or the message
/// for text that is not UTF-8 or whose markers are not well paired.
fn update_payload(bytes: &[u8], ensure: bool, os: Os) -> (r: Result<(bool, Vec<char>), String>)
    ensures
        match r {
            Ok((marked, u)) => marked == has_bom(bytes@) && updated_payload(bytes@, ensure, os)
                == Some(u@),
            Err(e) => updated_payload(bytes@, ensure, os) is None && (if valid_utf8(
                payload(bytes@),
            ) {
                e@ == marker_error()
            } else {
                e@ == encoding_error()
            }),
        },
{
    let (marked, body) = split_bom(bytes);
    let text = match utf8_text(body.as_slice()) {
        Ok(s) => s,
        Err(_) => return Err(encoding_error_message()),
    };
    let chars = crate::text::chars_of(text.as_str());
    let nl = newline_of(&chars, os);
    match update_text(&chars, ensure, &nl) {
        Ok(u) => Ok((marked, u)),
        Err(e) => Err(e),
    }
}

/// The file's new bytes with `ensure` (one canonical block) or without it (no block),
/// following the platform's line break only where the file has none of its own.
pub fn transform_image_agents_rules(bytes: &[u8], ensure: bool, os: Os) -> (r: Result<Vec<u8>, String>)
    ensures
        match r {
            Ok(out) => updated_payload(bytes@, ensure, os) matches Some(u) && out@ == encoded(
                bytes@,
                u,
            ),
            Err(e) => updated_payload(bytes@, ensure, os) is None && (if valid_utf8(
                payload(bytes@),
            ) {
                e@ == marker_error()
            } else {
                e@ == encoding_error()
            }),
        },
{
    match update_payload(bytes, ensure, os) {
        Ok((marked, u)) => Ok(encode_output(marked, &u)),
        Err(e) => Err(e),
    }
}

fn encode_output(marked: bool, u: &Vec<char>) -> (r: Vec<u8>)
    ensures
        r@ == (if marked {
            bom()
        } else {
            seq![]
        }) + encode_utf8(u@),
{
    let body = utf8_bytes(u);
    let mut out: Vec<u8> = Vec::new();
    if marked {
        out.push(0xef);
        out.push(0xbb);
        out.push(0xbf);
    }
    let ghost head = out@;
    assert(head =~= (if marked {
        bom()
    } else {
        seq![]
    }));
    let mut i: usize = 0;
    while i < body.len()
        invariant
            i <= body.len(),
            out@ == head + body@.subrange(0, i as int),
        decreases body.len() - i,
    {
        out.push(body[i]);
        assert(out@ =~= head + body@.subrange(0, i + 1));
        i = i + 1;
    }
    assert(body@.subrange(0, body@.len() as int) =~= body@);
    out
}

/// The file with exactly one canonical block.
pub fn ensure_image_agents_rules(bytes: &[u8], os: Os) -> (r: Result<Vec<u8>, String>)
    ensures
        match r {
            Ok(out) => updated_payload(bytes@, true, os) matches Some(u) && out@ == encoded(
                bytes@,
                u,
            ),
            Err(e) => updated_payload(bytes@, true, os) is None && (if valid_utf8(
                payload(bytes@),
            ) {
                e@ == marker_error()
            } else {
                e@ == encoding_error()
            }),
        },
{
    transform_image_agents_rules(bytes, true, os)
}

pub open spec fn feff() -> Seq<char> {
    seq!['\u{feff}']
}

/// Nothing but byte order marks and white space is left.
pub open spec fn is_empty_rules_file(u: Seq<char>) -> bool {
    all_ws(strip_prefixes(u, feff()))
}

/// The file with every managed block removed: `None` when nothing but byte order marks
/// and white space would be left (the file is then to be deleted), else its new bytes.
/// The line break plays no part in a removal.
pub fn remove_image_agents_rules(bytes: &[u8]) -> (r: Result<Option<Vec<u8>>, String>)
    ensures
        match r {
            Ok(None) => updated_payload(bytes@, false, Os::Other) matches Some(u)
                && is_empty_rules_file(u),
            Ok(Some(out)) => updated_payload(bytes@, false, Os::Other) matches Some(u)
                && !is_empty_rules_file(u) && out@ == encoded(bytes@, u),
            Err(e) => updated_payload(bytes@, false, Os::Other) is None && (if valid_utf8(
                payload(bytes@),
            ) {
                e@ == marker_error()
            } else {
                e@ == encoding_error()
            }),
        },
{
    let (marked, u) = match update_payload(bytes, false, Os::Other) {
        Ok(p) => p,
        Err(e) => return Err(e),
    };
    let feff_v: Vec<char> = vec!['\u{feff}'];
    assert(feff_v@ =~= feff());
    let rest = trim_start_matches(&u, &feff_v);
    if is_blank(&rest) {
        Ok(None)
    } else {
        Ok(Some(encode_output(marked, &u)))
    }
}

fn same_bytes(a: &Vec<u8>, b: &[u8]) -> (r: bool)
    ensures
        r == (a@ == b@),
{
    if a.len() != b.len() {
        return false;
    }
    let mut i: usize = 0;
    while i < a.len()
        invariant
            i <= a@.len(),
            a@.len() == b@.len(),
            forall|j: int| 0 <= j < i ==> a@[j] == b@[j],
        decreases a@.len() - i,
    {
        if a[i] != b[i] {
            assert(a@ != b@) by {
                if a@ == b@ {
                    assert(a@[i as int] == b@[i as int]);
                }
            }
            return false;
        }
        i = i + 1;
    }
    assert(a@ =~= b@);
    true
}

/// Whether the managed rules are in place: the file exists (`existed`) and ensuring the
/// canonical block would leave its bytes as they are.
pub fn rules_in_place(existed: bool, bytes: &[u8], os: Os) -> (r: Result<bool, String>)
    ensures
        !existed ==> r == Ok::<bool, String>(false),
        existed ==> match updated_payload(bytes@, true, os) {
            Some(u) => r == Ok::<bool, String>(encoded(bytes@, u) == bytes@),
            None => r is Err,
        },
{
    if !existed {
        return Ok(false);
    }
    match ensure_image_agents_rules(bytes, os) {
        Err(e) => Err(e),
        Ok(after) => {
            Ok(same_bytes(&after, bytes))
        },
    }
}

} // verus!
