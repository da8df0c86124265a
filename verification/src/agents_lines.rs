//! How the line scan and the marker counts of `AGENTS.md` behave on texts put together
//! at line boundaries, and what follows for the managed block: removing it twice is
//! removing it once.
use vstd::prelude::*;

use crate::agents::{
    agents_newline, appended, begin_marker, crlf, block_ranges, blank_or_tab, count_matches, end_marker, image_agents_block,
    lemma_line_end, lemma_markers, lemma_scan_ok, lf, line_content, line_end, marker_lines,
    rebuild, rules_text, scan_blocks, updated_text,
};
use crate::text::{
    index_of, lemma_index_of, lemma_index_of_bounds, lemma_trim_end_by, lemma_trim_start_by,
    contains, occurs_at, replace_all, trim_by, trim_end_by, trim_start_by,
};
use crate::platform::Os;

verus! {

/// The text has no line break.
pub open spec fn no_newline(m: Seq<char>) -> bool {
    forall|k: int| 0 <= k < m.len() ==> m[k] != '\n'
}

/// `s` is where a line starts: the start or end of the text, or just past a line break.
pub open spec fn is_line_start(t: Seq<char>, s: int) -> bool {
    0 <= s <= t.len() && (s == 0 || s == t.len() || t[s - 1] == '\n')
}

/// The text is empty or ends with a line break.
pub open spec fn ends_line(a: Seq<char>) -> bool {
    a.len() == 0 || a.last() == '\n'
}

pub proof fn lemma_markers_one_line()
    ensures
        no_newline(begin_marker()),
        no_newline(end_marker()),
{
    reveal_strlit("<!-- ChatGPT账号工具:generate-image:start -->");
    reveal_strlit("<!-- ChatGPT账号工具:generate-image:end -->");
    assert(no_newline(begin_marker()));
    assert(no_newline(end_marker()));
}

// ---------------------------------------------------------------------------
// Finding a character
// ---------------------------------------------------------------------------

pub proof fn lemma_index_of_prefix(x: Seq<char>, y: Seq<char>, c: char)
    requires
        x.len() > 0,
        x.last() == c,
    ensures
        index_of(x + y, c) == index_of(x, c),
        index_of(x, c) < x.len(),
    decreases x.len(),
{
    if x[0] != c {
        assert((x + y).drop_first() =~= x.drop_first() + y);
        assert(x.drop_first().last() == x.last());
        lemma_index_of_prefix(x.drop_first(), y, c);
    }
}

pub proof fn lemma_index_of_at_most(x: Seq<char>, c: char, k: int)
    requires
        0 <= k < x.len(),
        x[k] == c,
    ensures
        index_of(x, c) <= k,
    decreases k,
{
    if x[0] != c {
        assert(x.drop_first()[k - 1] == x[k]);
        lemma_index_of_at_most(x.drop_first(), c, k - 1);
    }
}

// ---------------------------------------------------------------------------
// Lines
// ---------------------------------------------------------------------------

pub proof fn lemma_line_end_starts_line(t: Seq<char>, s: int)
    requires
        0 <= s < t.len(),
    ensures
        is_line_start(t, line_end(t, s)),
        s < line_end(t, s),
{
    lemma_line_end(t, s);
    let k = index_of(t.skip(s), '\n');
    lemma_index_of_bounds(t.skip(s), '\n');
    if s + k < t.len() {
        assert(t.skip(s)[k] == t[s + k]);
    }
}

/// The line from `s` ends at or before the next line start.
pub proof fn lemma_line_end_before(t: Seq<char>, s: int, s2: int)
    requires
        0 <= s < s2,
        is_line_start(t, s2),
    ensures
        line_end(t, s) <= s2,
{
    lemma_line_end(t, s);
    if s2 < t.len() {
        assert(t.skip(s)[s2 - 1 - s] == t[s2 - 1]);
        lemma_index_of_at_most(t.skip(s), '\n', s2 - 1 - s);
    }
}

pub proof fn lemma_line_end_left(a: Seq<char>, b: Seq<char>, s: int)
    requires
        0 <= s < a.len(),
        a.last() == '\n',
    ensures
        line_end(a + b, s) == line_end(a, s),
        line_end(a, s) <= a.len(),
{
    assert((a + b).skip(s) =~= a.skip(s) + b);
    assert(a.skip(s).last() == a.last());
    lemma_index_of_prefix(a.skip(s), b, '\n');
}

pub proof fn lemma_line_end_right(a: Seq<char>, b: Seq<char>, j: int)
    requires
        0 <= j < b.len(),
    ensures
        line_end(a + b, a.len() + j) == a.len() + line_end(b, j),
{
    assert((a + b).skip(a.len() + j) =~= b.skip(j));
}

pub proof fn lemma_line_content_left(a: Seq<char>, b: Seq<char>, s: int, e: int)
    requires
        0 <= s <= e <= a.len(),
    ensures
        line_content(a + b, s, e) == line_content(a, s, e),
{
    assert((a + b).subrange(s, e) =~= a.subrange(s, e));
}

pub proof fn lemma_line_content_right(a: Seq<char>, b: Seq<char>, s: int, e: int)
    requires
        0 <= s <= e <= b.len(),
    ensures
        line_content(a + b, a.len() + s, a.len() + e) == line_content(b, s, e),
{
    assert((a + b).subrange(a.len() + s, a.len() + e) =~= b.subrange(s, e));
}

// ---------------------------------------------------------------------------
// Counting marker lines and matches over joined texts
// ---------------------------------------------------------------------------

pub proof fn lemma_marker_lines_shift(p: Seq<char>, x: Seq<char>, j: int, m: Seq<char>)
    requires
        0 <= j,
    ensures
        marker_lines(p + x, p.len() + j, m) == marker_lines(x, j, m),
    decreases x.len() - j,
{
    if j < x.len() {
        lemma_line_end(x, j);
        lemma_line_end_right(p, x, j);
        let e = line_end(x, j);
        lemma_line_content_right(p, x, j, e);
        lemma_marker_lines_shift(p, x, e, m);
    }
}

pub proof fn lemma_marker_lines_join(a: Seq<char>, b: Seq<char>, s: int, m: Seq<char>)
    requires
        0 <= s <= a.len(),
        ends_line(a),
    ensures
        marker_lines(a + b, s, m) == marker_lines(a, s, m) + marker_lines(b, 0, m),
    decreases a.len() - s,
{
    if s == a.len() {
        lemma_marker_lines_shift(a, b, 0, m);
    } else {
        lemma_line_end(a, s);
        lemma_line_end_left(a, b, s);
        let e = line_end(a, s);
        lemma_line_content_left(a, b, s, e);
        lemma_marker_lines_join(a, b, e, m);
    }
}

pub proof fn lemma_count_shift(p: Seq<char>, x: Seq<char>, m: Seq<char>, j: int)
    requires
        0 <= j,
    ensures
        count_matches(p + x, m, p.len() + j) == count_matches(x, m, j),
    decreases x.len() - j,
{
    if j < x.len() {
        if j + m.len() <= x.len() {
            assert((p + x).subrange(p.len() + j, p.len() + j + m.len()) =~= x.subrange(j, j + m.len()));
        }
        assert(occurs_at(p + x, m, p.len() + j) == occurs_at(x, m, j));
        if m.len() > 0 && occurs_at(x, m, j) {
            lemma_count_shift(p, x, m, j + m.len());
        } else {
            lemma_count_shift(p, x, m, j + 1);
        }
    }
}

pub proof fn lemma_count_join(a: Seq<char>, b: Seq<char>, m: Seq<char>, i: int)
    requires
        0 <= i <= a.len(),
        m.len() > 0,
        no_newline(m),
        ends_line(a),
    ensures
        count_matches(a + b, m, i) == count_matches(a, m, i) + count_matches(b, m, 0),
    decreases a.len() - i,
{
    if i == a.len() {
        lemma_count_shift(a, b, m, 0);
    } else {
        if occurs_at(a + b, m, i) && i + m.len() > a.len() {
            let k = a.len() - 1 - i;
            assert((a + b).subrange(i, i + m.len())[k] == (a + b)[a.len() - 1]);
            assert(m[k] == '\n');
        }
        if i + m.len() <= a.len() {
            assert((a + b).subrange(i, i + m.len()) =~= a.subrange(i, i + m.len()));
        }
        assert(occurs_at(a + b, m, i) == occurs_at(a, m, i));
        if occurs_at(a, m, i) {
            lemma_count_join(a, b, m, i + m.len());
        } else {
            lemma_count_join(a, b, m, i + 1);
        }
    }
}

/// A match at or after `i` is counted.
pub proof fn lemma_count_positive(x: Seq<char>, m: Seq<char>, i: int, j: int)
    requires
        0 <= i <= j,
        m.len() > 0,
        occurs_at(x, m, j),
    ensures
        count_matches(x, m, i) >= 1,
    decreases j - i,
{
    if !occurs_at(x, m, i) {
        lemma_count_positive(x, m, i + 1, j);
    }
}

// ---------------------------------------------------------------------------
// One line
// ---------------------------------------------------------------------------

pub proof fn lemma_trim_start_offset(s: Seq<char>, f: spec_fn(char) -> bool) -> (x: int)
    ensures
        0 <= x <= s.len(),
        trim_start_by(s, f) == s.skip(x),
    decreases s.len(),
{
    if s.len() > 0 && f(s[0]) {
        let y = lemma_trim_start_offset(s.drop_first(), f);
        assert(s.drop_first().skip(y) =~= s.skip(y + 1));
        y + 1
    } else {
        assert(s.skip(0) =~= s);
        0
    }
}

pub proof fn lemma_trim_end_offset(s: Seq<char>, f: spec_fn(char) -> bool) -> (y: int)
    ensures
        0 <= y <= s.len(),
        trim_end_by(s, f) == s.subrange(0, y),
    decreases s.len(),
{
    if s.len() > 0 && f(s.last()) {
        let y = lemma_trim_end_offset(s.drop_last(), f);
        assert(s.drop_last().subrange(0, y) =~= s.subrange(0, y));
        y
    } else {
        assert(s.subrange(0, s.len() as int) =~= s);
        s.len() as int
    }
}

/// A line whose content is `m` holds `m`.
pub proof fn lemma_content_occurs(t: Seq<char>, s: int, e: int, m: Seq<char>)
    requires
        0 <= s <= e <= t.len(),
        line_content(t, s, e) == m,
    ensures
        exists|x: int| occurs_at(t.subrange(s, e), m, x),
{
    let l = t.subrange(s, e);
    let a = if l.len() > 0 && l.last() == '\n' {
        l.drop_last()
    } else {
        l
    };
    let b = if a.len() > 0 && a.last() == '\r' {
        a.drop_last()
    } else {
        a
    };
    assert(b.len() <= l.len());
    assert(b =~= l.subrange(0, b.len() as int));
    let x = lemma_trim_start_offset(b, blank_or_tab());
    let c = b.skip(x);
    let y = lemma_trim_end_offset(c, blank_or_tab());
    assert(m == c.subrange(0, y));
    assert(l.subrange(x, x + y) =~= m);
    assert(occurs_at(l, m, x));
}

/// Counting from a line start: the line's matches, then those after it.
pub proof fn lemma_count_line(t: Seq<char>, m: Seq<char>, s: int)
    requires
        0 <= s < t.len(),
        m.len() > 0,
        no_newline(m),
    ensures
        count_matches(t, m, s) == count_matches(t.subrange(s, line_end(t, s)), m, 0)
            + count_matches(t, m, line_end(t, s)),
{
    lemma_line_end_starts_line(t, s);
    let e = line_end(t, s);
    let l = t.subrange(s, e);
    let r = t.subrange(e, t.len() as int);
    assert(t =~= t.subrange(0, s) + t.subrange(s, t.len() as int));
    lemma_count_shift(t.subrange(0, s), t.subrange(s, t.len() as int), m, 0);
    assert(t.subrange(s, t.len() as int) =~= l + r);
    assert(t =~= t.subrange(0, e) + r);
    lemma_count_shift(t.subrange(0, e), r, m, 0);
    if e < t.len() {
        assert(l.last() == t[e - 1]);
        lemma_count_join(l, r, m, 0);
    } else {
        assert(l + r =~= l);
    }
}

/// A line's content is at most one of two different texts, and where it is one, the line
/// holds a match of it.
pub proof fn lemma_line_count_bound(t: Seq<char>, m: Seq<char>, s: int)
    requires
        0 <= s < t.len(),
        m.len() > 0,
    ensures
        count_matches(t.subrange(s, line_end(t, s)), m, 0) >= (if line_content(t, s, line_end(t, s)) == m {
            1int
        } else {
            0int
        }),
{
    lemma_line_end(t, s);
    let e = line_end(t, s);
    if line_content(t, s, e) == m {
        lemma_content_occurs(t, s, e, m);
        let x = choose|x: int| occurs_at(t.subrange(s, e), m, x);
        lemma_count_positive(t.subrange(s, e), m, 0, x);
    }
}

/// How many more matches of `m` there are than lines holding only `m`, from `s` on.
pub open spec fn excess(t: Seq<char>, m: Seq<char>, s: int) -> int {
    count_matches(t, m, s) - marker_lines(t, s, m)
}

pub proof fn lemma_excess_step(t: Seq<char>, m: Seq<char>, s: int)
    requires
        0 <= s < t.len(),
        m.len() > 0,
        no_newline(m),
    ensures
        excess(t, m, s) == (count_matches(t.subrange(s, line_end(t, s)), m, 0) - (if line_content(
            t,
            s,
            line_end(t, s),
        ) == m {
            1int
        } else {
            0int
        })) + excess(t, m, line_end(t, s)),
        count_matches(t.subrange(s, line_end(t, s)), m, 0) - (if line_content(t, s, line_end(t, s))
            == m {
            1int
        } else {
            0int
        }) >= 0,
{
    lemma_line_end(t, s);
    lemma_count_line(t, m, s);
    lemma_line_count_bound(t, m, s);
}

pub proof fn lemma_excess_nonneg(t: Seq<char>, m: Seq<char>, s: int)
    requires
        0 <= s,
        m.len() > 0,
        no_newline(m),
    ensures
        excess(t, m, s) >= 0,
    decreases t.len() - s,
{
    if s < t.len() {
        lemma_excess_step(t, m, s);
        lemma_line_end(t, s);
        lemma_excess_nonneg(t, m, line_end(t, s));
    }
}

/// The excess never grows from one line start to a later one.
pub proof fn lemma_excess_monotone(t: Seq<char>, m: Seq<char>, s: int, s2: int)
    requires
        0 <= s <= s2,
        is_line_start(t, s2),
        m.len() > 0,
        no_newline(m),
    ensures
        excess(t, m, s) >= excess(t, m, s2),
    decreases s2 - s,
{
    if s < s2 && s < t.len() {
        lemma_excess_step(t, m, s);
        lemma_line_end(t, s);
        lemma_line_end_before(t, s, s2);
        lemma_excess_monotone(t, m, line_end(t, s), s2);
    }
}

/// A line taken out on its own is one line, with the same content.
pub proof fn lemma_line_alone(t: Seq<char>, s: int)
    requires
        0 <= s < t.len(),
    ensures
        line_end(t.subrange(s, line_end(t, s)), 0) == line_end(t, s) - s,
        line_content(t.subrange(s, line_end(t, s)), 0, line_end(t, s) - s) == line_content(
            t,
            s,
            line_end(t, s),
        ),
{
    lemma_line_end(t, s);
    let e = line_end(t, s);
    let l = t.subrange(s, e);
    let k = index_of(t.skip(s), '\n');
    lemma_index_of_bounds(t.skip(s), '\n');
    assert(l.skip(0) =~= l);
    if s + k < t.len() {
        assert(t.skip(s) =~= l + t.subrange(e, t.len() as int));
        assert(l.last() == t[s + k]);
        lemma_index_of_prefix(l, t.subrange(e, t.len() as int), '\n');
    } else {
        assert(l =~= t.skip(s));
    }
    assert(l.subrange(0, e - s) =~= t.subrange(s, e));
}

/// The marker lines of a single line: one where its content is `m`.
pub proof fn lemma_marker_lines_of_line(t: Seq<char>, s: int, m: Seq<char>)
    requires
        0 <= s < t.len(),
    ensures
        marker_lines(t.subrange(s, line_end(t, s)), 0, m) == (if line_content(t, s, line_end(t, s)) == m {
            1nat
        } else {
            0nat
        }),
{
    lemma_line_end(t, s);
    lemma_line_alone(t, s);
    let l = t.subrange(s, line_end(t, s));
    assert(marker_lines(l, l.len() as int, m) == 0);
    assert(marker_lines(l, 0, m) == (if line_content(l, 0, l.len() as int) == m {
        1nat
    } else {
        0nat
    }) + marker_lines(l, l.len() as int, m));
}

// ---------------------------------------------------------------------------
// The scan
// ---------------------------------------------------------------------------

/// A scan inside a block closes it at an end line and goes on from the next line.
pub proof fn lemma_open_scan(t: Seq<char>, x: int, st: int)
    requires
        0 <= x,
        scan_blocks(t, x, Some(st)) is Some,
    ensures
        ({
            let rs = scan_blocks(t, x, Some(st))->0;
            &&& rs.len() >= 1
            &&& rs[0].0 == st
            &&& x < rs[0].1
            &&& is_line_start(t, rs[0].1)
            &&& scan_blocks(t, rs[0].1, None) == Some(rs.drop_first())
        }),
    decreases t.len() - x,
{
    if x < t.len() {
        lemma_line_end_starts_line(t, x);
        let e = line_end(t, x);
        let c = line_content(t, x, e);
        if c == begin_marker() {
        } else if c == end_marker() {
            let rest = scan_blocks(t, e, None)->0;
            let rs = seq![(st, e)] + rest;
            assert(rs.drop_first() =~= rest);
        } else {
            lemma_open_scan(t, e, st);
        }
    }
}

/// Without marker lines there is no block.
pub proof fn lemma_scan_without_markers(t: Seq<char>, s: int)
    requires
        0 <= s,
        marker_lines(t, s, begin_marker()) == 0,
        marker_lines(t, s, end_marker()) == 0,
    ensures
        scan_blocks(t, s, None) == Some(Seq::<(int, int)>::empty()),
    decreases t.len() - s,
{
    if s < t.len() {
        lemma_line_end(t, s);
        lemma_scan_without_markers(t, line_end(t, s));
    }
}

// ---------------------------------------------------------------------------
// What a removal keeps
// ---------------------------------------------------------------------------

pub proof fn lemma_rebuild_skip(t: Seq<char>, rs: Seq<(int, int)>, i: int, c: int, nl: Seq<char>)
    requires
        1 <= i,
        rs.len() >= 1,
    ensures
        rebuild(t, rs, i, c, None, nl) == rebuild(t, rs.drop_first(), i - 1, c, None, nl),
    decreases rs.len() - i,
{
    if i < rs.len() {
        assert(rs.drop_first()[i - 1] == rs[i]);
        lemma_rebuild_skip(t, rs, i + 1, rs[i].1, nl);
    }
}

pub proof fn lemma_rebuild_prefix(t: Seq<char>, rs: Seq<(int, int)>, s: int, e: int, nl: Seq<char>)
    requires
        0 <= s <= e <= t.len(),
        rs.len() > 0 ==> e <= rs[0].0 <= rs[0].1 <= t.len(),
    ensures
        rebuild(t, rs, 0, s, None, nl) == t.subrange(s, e) + rebuild(t, rs, 0, e, None, nl),
{
    if rs.len() == 0 {
        assert(t.subrange(s, t.len() as int) =~= t.subrange(s, e) + t.subrange(e, t.len() as int));
    } else {
        let rest = rebuild(t, rs, 1, rs[0].1, None, nl);
        assert(t.subrange(s, rs[0].0) + Seq::<char>::empty() + rest =~= t.subrange(s, e) + (t.subrange(
            e,
            rs[0].0,
        ) + Seq::<char>::empty() + rest));
    }
}

/// What is kept of a well-formed text from a line start on holds no marker, neither as a
/// line nor anywhere inside one.
#[verifier::spinoff_prover]
pub proof fn lemma_kept_has_no_markers(t: Seq<char>, s: int, rs: Seq<(int, int)>, nl: Seq<char>)
    requires
        is_line_start(t, s),
        scan_blocks(t, s, None) == Some(rs),
        excess(t, begin_marker(), s) == 0,
        excess(t, end_marker(), s) == 0,
    ensures
        ({
            let k = rebuild(t, rs, 0, s, None, nl);
            &&& count_matches(k, begin_marker(), 0) == 0
            &&& count_matches(k, end_marker(), 0) == 0
            &&& marker_lines(k, 0, begin_marker()) == 0
            &&& marker_lines(k, 0, end_marker()) == 0
        }),
    decreases t.len() - s,
{
    lemma_markers();
    lemma_markers_one_line();
    let b = begin_marker();
    let m = end_marker();
    if s >= t.len() {
        assert(rs =~= Seq::<(int, int)>::empty());
        assert(rebuild(t, rs, 0, s, None, nl) =~= Seq::<char>::empty());
    } else {
        lemma_line_end_starts_line(t, s);
        let e = line_end(t, s);
        let c = line_content(t, s, e);
        lemma_excess_step(t, b, s);
        lemma_excess_step(t, m, s);
        lemma_excess_nonneg(t, b, e);
        lemma_excess_nonneg(t, m, e);
        if c == b {
            lemma_open_scan(t, e, s);
            let g = rs[0].1;
            lemma_excess_monotone(t, b, e, g);
            lemma_excess_monotone(t, m, e, g);
            lemma_excess_nonneg(t, b, g);
            lemma_excess_nonneg(t, m, g);
            lemma_rebuild_skip(t, rs, 1, g, nl);
            assert(rebuild(t, rs, 0, s, None, nl) =~= rebuild(t, rs.drop_first(), 0, g, None, nl));
            lemma_kept_has_no_markers(t, g, rs.drop_first(), nl);
        } else {
            assert(c != m);
            lemma_scan_ok(t, e, None);
            lemma_kept_has_no_markers(t, e, rs, nl);
            let l = t.subrange(s, e);
            let rest = rebuild(t, rs, 0, e, None, nl);
            if rs.len() > 0 {
                lemma_scan_ok(t, e, None);
            }
            lemma_rebuild_prefix(t, rs, s, e, nl);
            lemma_marker_lines_of_line(t, s, b);
            lemma_marker_lines_of_line(t, s, m);
            if e < t.len() {
                assert(l.last() == t[e - 1]);
                lemma_count_join(l, rest, b, 0);
                lemma_count_join(l, rest, m, 0);
                lemma_marker_lines_join(l, rest, 0, b);
                lemma_marker_lines_join(l, rest, 0, m);
            } else {
                assert(rs =~= Seq::<(int, int)>::empty());
                assert(rest =~= Seq::<char>::empty());
                assert(l + rest =~= l);
            }
        }
    }
}

/// Removing the managed blocks from a text leaves none: a second removal gives the text
/// back as it is.
pub proof fn law_removal_is_idempotent(t: Seq<char>, nl: Seq<char>, nl2: Seq<char>)
    requires
        updated_text(t, false, nl) is Some,
    ensures
        updated_text(updated_text(t, false, nl)->0, false, nl2) == updated_text(t, false, nl),
{
    lemma_markers();
    lemma_markers_one_line();
    let rs = block_ranges(t)->0;
    assert(scan_blocks(t, 0, None) == Some(rs));
    lemma_kept_has_no_markers(t, 0, rs, nl);
    let u = updated_text(t, false, nl)->0;
    if rs.len() == 0 {
        assert(rebuild(t, rs, 0, 0, None, nl) =~= t);
    }
    assert(u == rebuild(t, rs, 0, 0, None, nl));
    lemma_scan_without_markers(u, 0);
}

// ---------------------------------------------------------------------------
// The canonical block
// ---------------------------------------------------------------------------

/// The text has no carriage return.
pub open spec fn no_cr(m: Seq<char>) -> bool {
    forall|k: int| 0 <= k < m.len() ==> m[k] != '\r'
}

/// No character of the text from `i` on opens a marker.
pub open spec fn no_open_from(x: Seq<char>, i: int) -> bool {
    forall|k: int| i <= k < x.len() ==> x[k] != '<'
}

pub proof fn lemma_fixed_texts()
    ensures
        begin_marker()[0] == '<',
        end_marker()[0] == '<',
        no_open_from(begin_marker(), 1),
        no_open_from(end_marker(), 1),
        no_open_from(rules_text(), 0),
        begin_marker().len() > 34,
        end_marker().len() > 34,
        begin_marker()[34] != end_marker()[34],
        begin_marker().last() == '>',
        end_marker().last() == '>',
        no_cr(begin_marker()),
        no_cr(end_marker()),
        no_cr(rules_text()),
{
    reveal_strlit("<!-- ChatGPT账号工具:generate-image:start -->");
    reveal_strlit("<!-- ChatGPT账号工具:generate-image:end -->");
    reveal_strlit("## 生图与改图\n\n生成图片必须调用 Generate image MCP 的 `generate_image` 工具。\n修改图片必须调用 Generate image MCP 的 `edit_image` 工具。\n不要使用内置 `imagegen` 技能。若工具不可用，告知用户在 ChatGPT中转工具中点击“使用生图”或“修复生图”并重启 ChatGPT；不要自动改用其他生图工具。");
    assert(no_open_from(rules_text(), 0));
    assert(no_cr(begin_marker()));
    assert(no_cr(end_marker()));
    assert(no_cr(rules_text()));
}

/// Neither marker occurs anywhere in the text.
pub open spec fn markerless(x: Seq<char>) -> bool {
    forall|j: int| !occurs_at(x, begin_marker(), j) && !occurs_at(x, end_marker(), j)
}

pub proof fn lemma_count_zero(x: Seq<char>, m: Seq<char>, s: int)
    requires
        forall|j: int| !occurs_at(x, m, j),
    ensures
        count_matches(x, m, s) == 0,
    decreases x.len() - s,
{
    if 0 <= s < x.len() {
        lemma_count_zero(x, m, s + 1);
    }
}

/// A text without markers has no marker line and no match, from anywhere.
pub proof fn lemma_markerless_counts(x: Seq<char>, s: int)
    requires
        markerless(x),
        0 <= s,
    ensures
        count_matches(x, begin_marker(), s) == 0,
        count_matches(x, end_marker(), s) == 0,
        marker_lines(x, s, begin_marker()) == 0,
        marker_lines(x, s, end_marker()) == 0,
{
    lemma_markers();
    lemma_markers_one_line();
    lemma_count_zero(x, begin_marker(), s);
    lemma_count_zero(x, end_marker(), s);
    lemma_excess_nonneg(x, begin_marker(), s);
    lemma_excess_nonneg(x, end_marker(), s);
}

pub proof fn lemma_counts_markerless(x: Seq<char>)
    requires
        count_matches(x, begin_marker(), 0) == 0,
        count_matches(x, end_marker(), 0) == 0,
    ensures
        markerless(x),
{
    lemma_markers();
    assert forall|j: int| !occurs_at(x, begin_marker(), j) && !occurs_at(x, end_marker(), j) by {
        if occurs_at(x, begin_marker(), j) {
            lemma_count_positive(x, begin_marker(), 0, j);
        }
        if occurs_at(x, end_marker(), j) {
            lemma_count_positive(x, end_marker(), 0, j);
        }
    }
}

/// Two texts without markers, joined where no marker can straddle the join, have none.
pub proof fn lemma_markerless_join(a: Seq<char>, b: Seq<char>)
    requires
        markerless(a),
        markerless(b),
        ends_line(a) || b.len() == 0 || b[0] == '\r' || b[0] == '\n',
    ensures
        markerless(a + b),
{
    lemma_markers_one_line();
    lemma_fixed_texts();
    assert forall|j: int, m: Seq<char>|
        (m == begin_marker() || m == end_marker()) implies !occurs_at(#[trigger] (a + b), m, j) by {
        if occurs_at(a + b, m, j) {
            if j >= a.len() {
                assert((a + b).subrange(j, j + m.len()) =~= b.subrange(j - a.len(), j - a.len() + m.len()));
                assert(occurs_at(b, m, j - a.len()));
            } else if j + m.len() <= a.len() {
                assert((a + b).subrange(j, j + m.len()) =~= a.subrange(j, j + m.len()));
                assert(occurs_at(a, m, j));
            } else if ends_line(a) && a.len() > 0 {
                assert((a + b).subrange(j, j + m.len())[a.len() - 1 - j] == a.last());
            } else {
                assert((a + b).subrange(j, j + m.len())[a.len() - j] == b[0]);
            }
        }
    }
}

pub proof fn lemma_no_open_markerless(x: Seq<char>)
    requires
        no_open_from(x, 0),
    ensures
        markerless(x),
{
    lemma_fixed_texts();
    assert forall|j: int| !occurs_at(x, begin_marker(), j) && !occurs_at(x, end_marker(), j) by {
        if occurs_at(x, begin_marker(), j) {
            assert(x.subrange(j, j + begin_marker().len())[0] == x[j]);
        }
        if occurs_at(x, end_marker(), j) {
            assert(x.subrange(j, j + end_marker().len())[0] == x[j]);
        }
    }
}

pub proof fn lemma_replace_keeps_no_open(s: Seq<char>, from: Seq<char>, to: Seq<char>)
    requires
        no_open_from(s, 0),
        no_open_from(to, 0),
    ensures
        no_open_from(replace_all(s, from, to), 0),
    decreases s.len(),
{
    if from.len() == 0 || s.len() == 0 {
    } else if crate::text::has_prefix(s, from) {
        if from.len() <= s.len() {
            lemma_replace_keeps_no_open(s.skip(from.len() as int), from, to);
        }
        let r = replace_all(s.skip(from.len() as int), from, to);
        assert forall|k: int| 0 <= k < (to + r).len() implies (to + r)[k] != '<' by {
            if k >= to.len() {
                assert((to + r)[k] == r[k - to.len()]);
            }
        }
    } else {
        lemma_replace_keeps_no_open(s.drop_first(), from, to);
        let r = replace_all(s.drop_first(), from, to);
        assert forall|k: int| 0 <= k < (seq![s[0]] + r).len() implies (seq![s[0]] + r)[k] != '<' by {
            if k >= 1 {
                assert((seq![s[0]] + r)[k] == r[k - 1]);
            }
        }
    }
}

/// A line break: LF or CRLF.
pub open spec fn is_break(nl: Seq<char>) -> bool {
    nl == seq!['\n'] || nl == seq!['\r', '\n']
}

/// A text of one line: no line break but possibly at its very end.
pub open spec fn one_line(l: Seq<char>) -> bool {
    forall|k: int| 0 <= k < l.len() - 1 ==> l[k] != '\n'
}

/// A line put between two texts is found where it stands, with its own content.
pub proof fn lemma_line_between(q: Seq<char>, l: Seq<char>, y: Seq<char>)
    requires
        l.len() > 0,
        one_line(l),
        l.last() == '\n' || y.len() == 0,
    ensures
        line_end(q + l + y, q.len() as int) == q.len() + l.len(),
        line_content(q + l + y, q.len() as int, (q.len() + l.len()) as int) == line_content(l, 0, l.len() as int),
{
    let t = q + l + y;
    assert(t.skip(q.len() as int) =~= l + y);
    if l.last() == '\n' {
        lemma_index_of(l + y, '\n', l.len() - 1);
    } else {
        assert(l + y =~= l);
        lemma_index_of(l, '\n', l.len() as int);
    }
    assert(t.subrange(q.len() as int, (q.len() + l.len()) as int) =~= l);
    assert(l.subrange(0, l.len() as int) =~= l);
}

/// The content of a marker's own line is the marker.
pub proof fn lemma_marker_line_content(m: Seq<char>, x: Seq<char>)
    requires
        m == begin_marker() || m == end_marker(),
        x.len() == 0 || is_break(x),
    ensures
        line_content(m + x, 0, (m + x).len() as int) == m,
        one_line(m + x),
{
    lemma_fixed_texts();
    lemma_markers_one_line();
    let l = m + x;
    assert(l.subrange(0, l.len() as int) =~= l);
    let a = if l.len() > 0 && l.last() == '\n' {
        l.drop_last()
    } else {
        l
    };
    let b = if a.len() > 0 && a.last() == '\r' {
        a.drop_last()
    } else {
        a
    };
    assert(b =~= m);
    lemma_trim_start_by(m, blank_or_tab(), 0);
    assert(m.skip(0) =~= m);
    lemma_trim_end_by(m, blank_or_tab(), m.len() as int);
    assert(m.subrange(0, m.len() as int) =~= m);
    assert forall|k: int| 0 <= k < l.len() - 1 implies l[k] != '\n' by {
        if k >= m.len() {
            assert(l[k] == x[k - m.len()]);
        }
    }
}

/// Lines without markers are passed over by the scan, whether inside a block or not.
pub proof fn lemma_scan_skips(q: Seq<char>, a: Seq<char>, b: Seq<char>, s: int, open: Option<int>)
    requires
        0 <= s <= a.len(),
        ends_line(a),
        marker_lines(a, s, begin_marker()) == 0,
        marker_lines(a, s, end_marker()) == 0,
    ensures
        scan_blocks(q + a + b, q.len() + s, open) == scan_blocks(q + a + b, (q.len() + a.len()) as int, open),
    decreases a.len() - s,
{
    if s < a.len() {
        let t = q + a + b;
        assert(t =~= q + (a + b));
        lemma_line_end(a, s);
        lemma_line_end_left(a, b, s);
        lemma_line_end_right(q, a + b, s);
        let e = line_end(a, s);
        lemma_line_content_left(a, b, s, e);
        lemma_line_content_right(q, a + b, s, e);
        lemma_scan_skips(q, a, b, e, open);
    }
}

/// No match of a marker starts where no character opens one.
pub proof fn lemma_count_no_open(x: Seq<char>, m: Seq<char>, i: int)
    requires
        0 <= i,
        m.len() > 0,
        m[0] == '<',
        no_open_from(x, i),
    ensures
        count_matches(x, m, i) == 0,
    decreases x.len() - i,
{
    if i < x.len() {
        if occurs_at(x, m, i) {
            assert(x.subrange(i, i + m.len())[0] == x[i]);
        }
        lemma_count_no_open(x, m, i + 1);
    }
}

/// On a marker's own line: one match of that marker, none of the other.
#[verifier::spinoff_prover]
pub proof fn lemma_marker_line_counts(m: Seq<char>, o: Seq<char>, x: Seq<char>)
    requires
        (m == begin_marker() && o == end_marker()) || (m == end_marker() && o == begin_marker()),
        x.len() == 0 || is_break(x),
    ensures
        count_matches(m + x, m, 0) == 1,
        count_matches(m + x, o, 0) == 0,
        marker_lines(m + x, 0, m) == 1,
        marker_lines(m + x, 0, o) == 0,
{
    lemma_fixed_texts();
    lemma_markers();
    let l = m + x;
    assert(no_open_from(l, 1)) by {
        assert forall|k: int| 1 <= k < l.len() implies l[k] != '<' by {
            if k < m.len() {
                assert(l[k] == m[k]);
            } else {
                assert(l[k] == x[k - m.len()]);
            }
        }
    }
    assert(l.subrange(0, m.len() as int) =~= m);
    lemma_count_no_open(l, m, m.len() as int);
    if occurs_at(l, o, 0) {
        assert(l.subrange(0, o.len() as int)[34] == l[34]);
    }
    lemma_count_no_open(l, o, 1);
    lemma_marker_line_content(m, x);
    lemma_line_between(Seq::<char>::empty(), l, Seq::<char>::empty());
    assert(Seq::<char>::empty() + l + Seq::<char>::empty() =~= l);
    lemma_marker_lines_of_line(l, 0, m);
    lemma_marker_lines_of_line(l, 0, o);
    assert(l.subrange(0, l.len() as int) =~= l);
}

/// The rules between the two marker lines, with their line break.
pub open spec fn block_middle(nl: Seq<char>) -> Seq<char> {
    replace_all(rules_text(), lf(), nl) + nl
}

pub proof fn lemma_block_middle(nl: Seq<char>)
    requires
        is_break(nl),
    ensures
        markerless(block_middle(nl)),
        ends_line(block_middle(nl)),
        image_agents_block(nl) == begin_marker() + nl + block_middle(nl) + end_marker(),
{
    lemma_fixed_texts();
    let body = replace_all(rules_text(), lf(), nl);
    let mid = block_middle(nl);
    assert(no_open_from(nl, 0));
    lemma_replace_keeps_no_open(rules_text(), lf(), nl);
    assert(no_open_from(mid, 0)) by {
        assert forall|k: int| 0 <= k < mid.len() implies mid[k] != '<' by {
            if k >= body.len() {
                assert(mid[k] == nl[k - body.len()]);
            }
        }
    }
    lemma_no_open_markerless(mid);
    assert(image_agents_block(nl) =~= begin_marker() + nl + mid + end_marker());
}

pub open spec fn block_text_ok(p: Seq<char>, x: Seq<char>, r: Seq<char>, nl: Seq<char>) -> bool {
    &&& is_break(nl)
    &&& markerless(p)
    &&& ends_line(p)
    &&& markerless(r)
    &&& (x == nl || (x.len() == 0 && r.len() == 0))
}

/// Where the block of such a text is found.
pub open spec fn block_span(p: Seq<char>, x: Seq<char>, nl: Seq<char>) -> (int, int) {
    (p.len() as int, (p.len() + image_agents_block(nl).len() + x.len()) as int)
}

/// The scan at a begin line outside a block opens one.
pub proof fn lemma_scan_at_begin(q: Seq<char>, nl: Seq<char>, y: Seq<char>)
    requires
        is_break(nl),
    ensures
        scan_blocks(q + (begin_marker() + nl) + y, q.len() as int, None) == scan_blocks(
            q + (begin_marker() + nl) + y,
            (q.len() + begin_marker().len() + nl.len()) as int,
            Some(q.len() as int),
        ),
{
    lemma_markers();
    lemma_marker_line_content(begin_marker(), nl);
    lemma_line_between(q, begin_marker() + nl, y);
}

/// The scan at an end line inside a block closes it; nothing follows without markers.
#[verifier::spinoff_prover]
pub proof fn lemma_scan_at_end(q: Seq<char>, x: Seq<char>, r: Seq<char>, st: int)
    requires
        x.len() == 0 || is_break(x),
        x.len() == 0 ==> r.len() == 0,
        markerless(r),
    ensures
        scan_blocks(q + (end_marker() + x) + r, q.len() as int, Some(st)) == Some(
            seq![(st, (q.len() + end_marker().len() + x.len()) as int)],
        ),
{
    lemma_markers();
    lemma_marker_line_content(end_marker(), x);
    let l = end_marker() + x;
    lemma_line_between(q, l, r);
    let u = q + l + r;
    let p3 = (q.len() + l.len()) as int;
    lemma_markerless_counts(r, 0);
    assert(u =~= (q + l) + r);
    lemma_marker_lines_shift(q + l, r, 0, begin_marker());
    lemma_marker_lines_shift(q + l, r, 0, end_marker());
    lemma_scan_without_markers(u, p3);
    assert(seq![(st, p3)] + Seq::<(int, int)>::empty() =~= seq![(st, p3)]);
}

#[verifier::rlimit(60)]
#[verifier::spinoff_prover]
pub proof fn lemma_block_scan(p: Seq<char>, x: Seq<char>, r: Seq<char>, nl: Seq<char>)
    requires
        block_text_ok(p, x, r, nl),
    ensures
        scan_blocks(p + image_agents_block(nl) + x + r, 0, None) == Some(seq![block_span(p, x, nl)]),
{
    lemma_block_middle(nl);
    let l1 = begin_marker() + nl;
    let mid = block_middle(nl);
    let l2 = end_marker() + x;
    let u = p + image_agents_block(nl) + x + r;
    let p0 = p.len() as int;
    let p1 = p0 + l1.len();
    let p2 = p1 + mid.len();
    lemma_markerless_counts(p, 0);
    lemma_markerless_counts(mid, 0);
    assert(u =~= Seq::<char>::empty() + p + (l1 + mid + l2 + r));
    lemma_scan_skips(Seq::<char>::empty(), p, l1 + mid + l2 + r, 0, None);
    assert(u =~= p + l1 + (mid + l2 + r));
    lemma_scan_at_begin(p, nl, mid + l2 + r);
    assert(u =~= (p + l1) + mid + (l2 + r));
    lemma_scan_skips(p + l1, mid, l2 + r, 0, Some(p0));
    assert(u =~= (p + l1 + mid) + l2 + r);
    lemma_scan_at_end(p + l1 + mid, x, r, p0);
}

/// Marker lines and matches add up over five parts joined at line ends.
#[verifier::spinoff_prover]
pub proof fn lemma_five_parts(p: Seq<char>, l1: Seq<char>, mid: Seq<char>, l2: Seq<char>, r: Seq<char>, m: Seq<char>)
    requires
        ends_line(p),
        ends_line(l1),
        ends_line(mid),
        ends_line(l2) || r.len() == 0,
        m.len() > 0,
        no_newline(m),
    ensures
        marker_lines(p + l1 + mid + l2 + r, 0, m) == marker_lines(p, 0, m) + marker_lines(l1, 0, m)
            + marker_lines(mid, 0, m) + marker_lines(l2, 0, m) + marker_lines(r, 0, m),
        count_matches(p + l1 + mid + l2 + r, m, 0) == count_matches(p, m, 0) + count_matches(l1, m, 0)
            + count_matches(mid, m, 0) + count_matches(l2, m, 0) + count_matches(r, m, 0),
{
    let tail = l2 + r;
    if ends_line(l2) {
        lemma_count_join(l2, r, m, 0);
        lemma_marker_lines_join(l2, r, 0, m);
    } else {
        assert(tail =~= l2);
        assert(count_matches(r, m, 0) == 0);
        assert(marker_lines(r, 0, m) == 0);
    }
    lemma_count_join(mid, tail, m, 0);
    lemma_marker_lines_join(mid, tail, 0, m);
    lemma_count_join(l1, mid + tail, m, 0);
    lemma_marker_lines_join(l1, mid + tail, 0, m);
    lemma_count_join(p, l1 + (mid + tail), m, 0);
    lemma_marker_lines_join(p, l1 + (mid + tail), 0, m);
    assert(p + l1 + mid + l2 + r =~= p + (l1 + (mid + tail)));
}

#[verifier::spinoff_prover]
pub proof fn lemma_block_counts(p: Seq<char>, x: Seq<char>, r: Seq<char>, nl: Seq<char>, m: Seq<char>, o: Seq<char>)
    requires
        block_text_ok(p, x, r, nl),
        (m == begin_marker() && o == end_marker()) || (m == end_marker() && o == begin_marker()),
    ensures
        count_matches(p + image_agents_block(nl) + x + r, m, 0) == 1,
        marker_lines(p + image_agents_block(nl) + x + r, 0, m) == 1,
{
    lemma_markers();
    lemma_markers_one_line();
    lemma_block_middle(nl);
    let l1 = begin_marker() + nl;
    let mid = block_middle(nl);
    let l2 = end_marker() + x;
    lemma_markerless_counts(p, 0);
    lemma_markerless_counts(mid, 0);
    lemma_markerless_counts(r, 0);
    lemma_marker_line_counts(begin_marker(), end_marker(), nl);
    lemma_marker_line_counts(end_marker(), begin_marker(), x);
    assert(l1.last() == nl.last());
    if x == nl {
        assert(l2.last() == nl.last());
    }
    lemma_five_parts(p, l1, mid, l2, r, m);
    assert(p + image_agents_block(nl) + x + r =~= p + l1 + mid + l2 + r);
}

#[verifier::spinoff_prover]
pub proof fn lemma_block_rebuild(p: Seq<char>, x: Seq<char>, r: Seq<char>, nl: Seq<char>)
    requires
        block_text_ok(p, x, r, nl),
    ensures
        rebuild(
            p + image_agents_block(nl) + x + r,
            seq![block_span(p, x, nl)],
            0,
            0,
            Some(image_agents_block(nl)),
            nl,
        ) == p + image_agents_block(nl) + x + r,
{
    lemma_fixed_texts();
    lemma_block_middle(nl);
    let blk = image_agents_block(nl);
    let u = p + blk + x + r;
    let (p0, p3) = block_span(p, x, nl);
    let rs = seq![(p0, p3)];
    let head = p + begin_marker() + nl + block_middle(nl);
    assert(u =~= head + (end_marker() + x) + r);
    assert(u[p3 - 1] == (end_marker() + x).last());
    assert(u.subrange(0, p0) =~= p);
    assert(u.subrange(p3, u.len() as int) =~= r);
    assert(rebuild(u, rs, 1, p3, Some(blk), nl) == r);
    assert(rebuild(u, rs, 0, 0, Some(blk), nl) =~= u);
}

/// A text made of a part without markers that ends a line, the canonical block, then a
/// line break and a part without markers (or nothing at all): ensuring the block gives it
/// back as it is.
#[verifier::spinoff_prover]
pub proof fn lemma_block_in_place(p: Seq<char>, x: Seq<char>, r: Seq<char>, nl: Seq<char>)
    requires
        block_text_ok(p, x, r, nl),
    ensures
        updated_text(p + image_agents_block(nl) + x + r, true, nl) == Some(
            p + image_agents_block(nl) + x + r,
        ),
{
    lemma_block_scan(p, x, r, nl);
    lemma_block_counts(p, x, r, nl, begin_marker(), end_marker());
    lemma_block_counts(p, x, r, nl, end_marker(), begin_marker());
    lemma_block_rebuild(p, x, r, nl);
}

/// Parts of a text without markers have none.
pub proof fn lemma_markerless_parts(a: Seq<char>, b: Seq<char>)
    requires
        markerless(a + b),
    ensures
        markerless(a),
        markerless(b),
{
    assert forall|j: int, m: Seq<char>|
        (m == begin_marker() || m == end_marker()) implies !occurs_at(a, m, j) && !occurs_at(b, m, j) by {
        if occurs_at(a, m, j) {
            assert((a + b).subrange(j, j + m.len()) =~= a.subrange(j, j + m.len()));
            assert(occurs_at(a + b, m, j));
        }
        if occurs_at(b, m, j) {
            assert((a + b).subrange(a.len() + j, a.len() + j + m.len()) =~= b.subrange(j, j + m.len()));
            assert(occurs_at(a + b, m, a.len() + j));
        }
    }
}

/// A scan outside a block that finds blocks: the first starts at a line start, and the
/// scan goes on from the line after its end.
#[verifier::spinoff_prover]
pub proof fn lemma_first_block(t: Seq<char>, s: int, rs: Seq<(int, int)>)
    requires
        is_line_start(t, s),
        scan_blocks(t, s, None) == Some(rs),
        rs.len() > 0,
    ensures
        is_line_start(t, rs[0].0),
        is_line_start(t, rs[0].1),
        s <= rs[0].0 < rs[0].1 <= t.len(),
        scan_blocks(t, rs[0].1, None) == Some(rs.drop_first()),
    decreases t.len() - s,
{
    if s >= t.len() {
        assert(rs.len() == 0);
    } else {
        lemma_line_end_starts_line(t, s);
        let e = line_end(t, s);
        let c = line_content(t, s, e);
        if c == begin_marker() {
            lemma_open_scan(t, e, s);
            lemma_line_end(t, rs[0].1 - 1);
            lemma_scan_ok(t, s, None);
        } else {
            lemma_first_block(t, e, rs);
        }
    }
}

/// Past the first block, what replaces it plays no part in a rebuild.
pub proof fn lemma_rebuild_tail(t: Seq<char>, rs: Seq<(int, int)>, i: int, c: int, repl: Option<Seq<char>>, nl: Seq<char>)
    requires
        1 <= i,
    ensures
        rebuild(t, rs, i, c, repl, nl) == rebuild(t, rs, i, c, None, nl),
    decreases rs.len() - i,
{
    if i < rs.len() {
        lemma_rebuild_tail(t, rs, i + 1, rs[i].1, repl, nl);
    }
}

/// The text after ensuring the block: a part without markers that ends a line, the
/// canonical block, then a line break and what follows it (or nothing at all). Where the
/// text has no CRLF, neither part has, unless the text had no block and ends with a CR.
#[verifier::spinoff_prover]
pub proof fn lemma_ensured_shape(t: Seq<char>, nl: Seq<char>) -> (parts: (Seq<char>, Seq<char>, Seq<char>))
    requires
        is_break(nl),
        updated_text(t, true, nl) is Some,
    ensures
        updated_text(t, true, nl)->0 == parts.0 + image_agents_block(nl) + parts.1 + parts.2,
        block_text_ok(parts.0, parts.1, parts.2, nl),
        nl == lf() && no_crlf(t) && !(block_ranges(t) == Some(Seq::<(int, int)>::empty()) && t.len()
            > 0 && t.last() == '\r') ==> no_crlf(parts.0) && no_crlf(parts.2),
{
    lemma_markers();
    lemma_markers_one_line();
    lemma_fixed_texts();
    let blk = image_agents_block(nl);
    let rs = block_ranges(t)->0;
    assert(scan_blocks(t, 0, None) == Some(rs));
    lemma_kept_has_no_markers(t, 0, rs, nl);
    let k0 = rebuild(t, rs, 0, 0, None, nl);
    lemma_counts_markerless(k0);
    let u = updated_text(t, true, nl)->0;
    if rs.len() == 0 {
        assert(rs =~= Seq::<(int, int)>::empty());
        assert(k0 =~= t);
        let sep = if t.len() == 0 {
            Seq::<char>::empty()
        } else if crate::text::has_suffix(t, nl + nl) {
            Seq::<char>::empty()
        } else if crate::text::has_suffix(t, nl) {
            nl
        } else {
            nl + nl
        };
        assert(u == appended(t, blk, nl));
        assert(u =~= (t + sep) + blk + nl + Seq::<char>::empty());
        assert(no_open_from(sep, 0));
        lemma_no_open_markerless(sep);
        lemma_markerless_join(t, sep);
        if t.len() > 0 && sep.len() == 0 {
            assert(t.subrange(t.len() - (nl + nl).len(), t.len() as int)[(nl + nl).len() - 1] == t.last());
        }
        if t.len() > 0 && sep == nl {
            assert(t.subrange(t.len() - nl.len(), t.len() as int)[nl.len() - 1] == t.last());
        }
        assert(ends_line(t + sep));
        if nl == lf() && no_crlf(t) && !(t.len() > 0 && t.last() == '\r') {
            assert(no_cr(sep));
            lemma_no_cr_no_crlf(sep);
            lemma_no_crlf_join(t, sep);
        }
        assert(no_crlf(Seq::<char>::empty())) by {
            if contains(Seq::<char>::empty(), crlf()) {
                let j = choose|j: int| occurs_at(Seq::<char>::empty(), crlf(), j);
            }
        }
        (t + sep, nl, Seq::<char>::empty())
    } else {
        lemma_first_block(t, 0, rs);
        let s0 = rs[0].0;
        let e0 = rs[0].1;
        let p = t.subrange(0, s0);
        let rest = rebuild(t, rs, 1, e0, None, nl);
        assert(k0 =~= p + rest);
        lemma_markerless_parts(p, rest);
        lemma_rebuild_skip(t, rs, 1, e0, nl);
        lemma_rebuild_tail(t, rs, 1, e0, Some(blk), nl);
        let x = if e0 > s0 && t[e0 - 1] == '\n' {
            nl
        } else {
            Seq::<char>::empty()
        };
        if x.len() == 0 {
            assert(e0 == t.len());
            assert(rs.drop_first().len() == 0);
            assert(rest =~= Seq::<char>::empty());
        }
        assert(u =~= p + blk + x + rest);
        if no_crlf(t) {
            lemma_no_crlf_sub(t, 0, s0);
            lemma_blocks_at_line_starts(t, e0, rs.drop_first());
            lemma_scan_ok(t, e0, None);
            lemma_rebuild_no_crlf(t, rs.drop_first(), 0, e0, nl);
        }
        (p, x, rest)
    }
}

/// Ensuring the managed block twice with the same line break is ensuring it once.
pub proof fn law_ensure_is_idempotent(t: Seq<char>, nl: Seq<char>)
    requires
        is_break(nl),
        updated_text(t, true, nl) is Some,
    ensures
        updated_text(updated_text(t, true, nl)->0, true, nl) == updated_text(t, true, nl),
{
    let parts = lemma_ensured_shape(t, nl);
    lemma_block_in_place(parts.0, parts.1, parts.2, nl);
}

// ---------------------------------------------------------------------------
// The line break chosen the second time
// ---------------------------------------------------------------------------

/// No CR is directly followed by LF.
pub open spec fn no_crlf(x: Seq<char>) -> bool {
    !contains(x, crlf())
}

pub proof fn lemma_no_crlf_join(a: Seq<char>, b: Seq<char>)
    requires
        no_crlf(a),
        no_crlf(b),
        !(a.len() > 0 && b.len() > 0 && a.last() == '\r' && b[0] == '\n'),
    ensures
        no_crlf(a + b),
{
    if contains(a + b, crlf()) {
        let j = choose|j: int| occurs_at(a + b, crlf(), j);
        let w = (a + b).subrange(j, j + 2);
        assert(w[0] == (a + b)[j] && w[1] == (a + b)[j + 1]);
        if j + 2 <= a.len() {
            assert(a.subrange(j, j + 2) =~= w);
            assert(occurs_at(a, crlf(), j));
        } else if j >= a.len() {
            assert(b.subrange(j - a.len(), j - a.len() + 2) =~= w);
            assert(occurs_at(b, crlf(), j - a.len()));
        } else {
            assert(j == a.len() - 1);
        }
    }
}

pub proof fn lemma_no_crlf_sub(t: Seq<char>, i: int, j: int)
    requires
        no_crlf(t),
        0 <= i <= j <= t.len(),
    ensures
        no_crlf(t.subrange(i, j)),
{
    let x = t.subrange(i, j);
    if contains(x, crlf()) {
        let k = choose|k: int| occurs_at(x, crlf(), k);
        assert(t.subrange(i + k, i + k + 2) =~= x.subrange(k, k + 2));
        assert(occurs_at(t, crlf(), i + k));
    }
}

pub proof fn lemma_no_cr_no_crlf(x: Seq<char>)
    requires
        no_cr(x),
    ensures
        no_crlf(x),
{
    if contains(x, crlf()) {
        let k = choose|k: int| occurs_at(x, crlf(), k);
        assert(x.subrange(k, k + 2)[0] == x[k]);
    }
}

pub proof fn lemma_replace_keeps_no_cr(s: Seq<char>, from: Seq<char>, to: Seq<char>)
    requires
        no_cr(s),
        no_cr(to),
    ensures
        no_cr(replace_all(s, from, to)),
    decreases s.len(),
{
    if from.len() == 0 || s.len() == 0 {
    } else if crate::text::has_prefix(s, from) {
        lemma_replace_keeps_no_cr(s.skip(from.len() as int), from, to);
        let r = replace_all(s.skip(from.len() as int), from, to);
        assert forall|k: int| 0 <= k < (to + r).len() implies (to + r)[k] != '\r' by {
            if k >= to.len() {
                assert((to + r)[k] == r[k - to.len()]);
            }
        }
    } else {
        lemma_replace_keeps_no_cr(s.drop_first(), from, to);
        let r = replace_all(s.drop_first(), from, to);
        assert forall|k: int| 0 <= k < (seq![s[0]] + r).len() implies (seq![s[0]] + r)[k] != '\r' by {
            if k >= 1 {
                assert((seq![s[0]] + r)[k] == r[k - 1]);
            }
        }
    }
}

/// With LF as its line break, the canonical block has no CR at all.
#[verifier::spinoff_prover]
pub proof fn lemma_block_no_cr()
    ensures
        no_cr(image_agents_block(lf())),
        image_agents_block(lf())[0] == '<',
        image_agents_block(lf()).last() == '>',
{
    lemma_fixed_texts();
    lemma_block_middle(lf());
    lemma_replace_keeps_no_cr(rules_text(), lf(), lf());
    let b = begin_marker();
    let e = end_marker();
    let body = replace_all(rules_text(), lf(), lf());
    let blk = image_agents_block(lf());
    assert(blk =~= b + lf() + body + lf() + e);
    assert forall|k: int| 0 <= k < blk.len() implies blk[k] != '\r' by {
        if k < b.len() {
            assert(blk[k] == b[k]);
        } else if k < b.len() + 1 {
        } else if k < b.len() + 1 + body.len() {
            assert(blk[k] == body[k - b.len() - 1]);
        } else if k < b.len() + 2 + body.len() {
        } else {
            assert(blk[k] == e[k - b.len() - 2 - body.len()]);
        }
    }
}

/// Every block a scan finds starts and ends at line starts.
pub proof fn lemma_blocks_at_line_starts(t: Seq<char>, s: int, rs: Seq<(int, int)>)
    requires
        is_line_start(t, s),
        scan_blocks(t, s, None) == Some(rs),
    ensures
        forall|i: int| 0 <= i < rs.len() ==> is_line_start(t, #[trigger] rs[i].0) && is_line_start(t, rs[i].1),
    decreases rs.len(),
{
    if rs.len() > 0 {
        lemma_first_block(t, s, rs);
        lemma_blocks_at_line_starts(t, rs[0].1, rs.drop_first());
        assert forall|i: int| 0 <= i < rs.len() implies is_line_start(t, #[trigger] rs[i].0) && is_line_start(t, rs[i].1) by {
            if i > 0 {
                assert(rs[i] == rs.drop_first()[i - 1]);
            }
        }
    }
}

/// What a removal keeps of a text without CRLF has none.
pub proof fn lemma_rebuild_no_crlf(t: Seq<char>, rs: Seq<(int, int)>, i: int, c: int, nl: Seq<char>)
    requires
        no_crlf(t),
        0 <= i,
        0 <= c <= t.len(),
        i < rs.len() ==> c <= rs[i].0,
        crate::agents::ranges_ok(rs, t.len() as int),
        forall|k: int| 0 <= k < rs.len() ==> is_line_start(t, #[trigger] rs[k].0),
    ensures
        no_crlf(rebuild(t, rs, i, c, None, nl)),
    decreases rs.len() - i,
{
    if i >= rs.len() {
        lemma_no_crlf_sub(t, c, t.len() as int);
    } else {
        let st = rs[i].0;
        let en = rs[i].1;
        if i + 1 < rs.len() {
            assert(rs[i + 1].0 >= en);
        }
        lemma_rebuild_no_crlf(t, rs, i + 1, en, nl);
        lemma_no_crlf_sub(t, c, st);
        let piece = t.subrange(c, st);
        let rest = rebuild(t, rs, i + 1, en, None, nl);
        if piece.len() > 0 {
            assert(piece.last() == t[st - 1]);
        }
        lemma_no_crlf_join(piece, rest);
        assert(rebuild(t, rs, i, c, None, nl) =~= piece + rest);
    }
}

pub proof fn lemma_block_holds_break(p: Seq<char>, x: Seq<char>, r: Seq<char>, nl: Seq<char>)
    requires
        is_break(nl),
    ensures
        contains(p + image_agents_block(nl) + x + r, nl),
{
    let b = begin_marker();
    let u = p + image_agents_block(nl) + x + r;
    let i = (p.len() + b.len()) as int;
    assert(u =~= (p + b) + nl + (replace_all(rules_text(), lf(), nl) + nl + end_marker() + x + r));
    assert(u.subrange(i, i + nl.len()) =~= nl);
    assert(occurs_at(u, nl, i));
}

/// Ensuring the block keeps the line break the text is read with, except where the text
/// has no block and ends with a CR while the line break is LF.
#[verifier::spinoff_prover]
pub proof fn lemma_newline_kept(t: Seq<char>, os: Os)
    requires
        updated_text(t, true, agents_newline(t, os)) is Some,
        !(block_ranges(t) == Some(Seq::<(int, int)>::empty()) && t.len() > 0 && t.last() == '\r'
            && agents_newline(t, os) == lf()),
    ensures
        agents_newline(updated_text(t, true, agents_newline(t, os))->0, os) == agents_newline(t, os),
{
    let nl = agents_newline(t, os);
    assert(crlf() =~= seq!['\r', '\n']);
    assert(lf() =~= seq!['\n']);
    assert(is_break(nl));
    let parts = lemma_ensured_shape(t, nl);
    let (p, x, r) = parts;
    let blk = image_agents_block(nl);
    let u = p + blk + x + r;
    lemma_block_holds_break(p, x, r, nl);
    if nl == lf() {
        assert(no_crlf(t));
        lemma_block_no_cr();
        lemma_no_cr_no_crlf(blk);
        lemma_fixed_texts();
        assert(blk[0] == '<');
        lemma_no_crlf_join(p, blk);
        assert(no_cr(x));
        lemma_no_cr_no_crlf(x);
        assert((p + blk).last() == blk.last());
        lemma_no_crlf_join(p + blk, x);
        if x.len() > 0 {
            assert((p + blk + x).last() == x.last());
        }
        lemma_no_crlf_join(p + blk + x, r);
    }
}

/// Ensuring the managed block in a file's text twice is ensuring it once, each time with
/// the line break the text is read with. The one exception is a text without a block
/// that ends with a CR while the line break chosen is LF: the block appended after it
/// makes a CRLF, and the second pass then chooses CRLF.
pub proof fn law_ensure_rules_text_is_idempotent(t: Seq<char>, os: Os)
    requires
        updated_text(t, true, agents_newline(t, os)) is Some,
        !(block_ranges(t) == Some(Seq::<(int, int)>::empty()) && t.len() > 0 && t.last() == '\r'
            && agents_newline(t, os) == lf()),
    ensures
        updated_text(
            updated_text(t, true, agents_newline(t, os))->0,
            true,
            agents_newline(updated_text(t, true, agents_newline(t, os))->0, os),
        ) == updated_text(t, true, agents_newline(t, os)),
{
    let nl = agents_newline(t, os);
    assert(crlf() =~= seq!['\r', '\n']);
    assert(lf() =~= seq!['\n']);
    lemma_newline_kept(t, os);
    law_ensure_is_idempotent(t, nl);
}

} // verus!
