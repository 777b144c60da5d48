//! Splitting a migration file into executable statements: statements are
//! separated by semicolons; comment lines are dropped, whitespace trimmed,
//! and empty fragments skipped. Whitespace here is the ASCII kind found in
//! schema files.

use vstd::prelude::*;
use vstd::string::{StrSliceExecFns, StringExecFns};
use crate::text::push_char;

verus! {

pub open spec fn is_sql_space(c: char) -> bool {
    c == ' ' || c == '\t' || c == '\r' || c == '\n'
}

/// The segments of `s` between occurrences of `sep`; always non-empty.
pub open spec fn split_on(s: Seq<char>, sep: char) -> Seq<Seq<char>>
    decreases s.len(),
{
    if s.len() == 0 {
        seq![Seq::<char>::empty()]
    } else if s.last() == sep {
        split_on(s.drop_last(), sep).push(Seq::<char>::empty())
    } else {
        let prev = split_on(s.drop_last(), sep);
        prev.update(prev.len() - 1, prev.last().push(s.last()))
    }
}

/// `s` with its leading whitespace removed.
pub open spec fn trim_left(s: Seq<char>) -> Seq<char>
    decreases s.len(),
{
    if s.len() > 0 && is_sql_space(s[0]) {
        trim_left(s.skip(1))
    } else {
        s
    }
}

/// `s` with its trailing whitespace removed.
pub open spec fn trim_right(s: Seq<char>) -> Seq<char>
    decreases s.len(),
{
    if s.len() > 0 && is_sql_space(s.last()) {
        trim_right(s.drop_last())
    } else {
        s
    }
}

pub open spec fn spec_trim(s: Seq<char>) -> Seq<char> {
    trim_right(trim_left(s))
}

/// A line whose first non-space characters open a `--` comment.
pub open spec fn is_comment_line(line: Seq<char>) -> bool {
    let t = trim_left(line);
    t.len() >= 2 && t[0] == '-' && t[1] == '-'
}

/// The non-comment lines of a statement.
pub open spec fn kept_lines(lines: Seq<Seq<char>>) -> Seq<Seq<char>>
    decreases lines.len(),
{
    if lines.len() == 0 {
        lines
    } else if is_comment_line(lines.last()) {
        kept_lines(lines.drop_last())
    } else {
        kept_lines(lines.drop_last()).push(lines.last())
    }
}

/// The lines joined back with newlines.
pub open spec fn join_lines(lines: Seq<Seq<char>>) -> Seq<char>
    decreases lines.len(),
{
    if lines.len() == 0 {
        Seq::<char>::empty()
    } else if lines.len() == 1 {
        lines[0]
    } else {
        join_lines(lines.drop_last()) + seq!['\n'] + lines.last()
    }
}

/// One raw semicolon-separated fragment, cleaned for execution.
pub open spec fn spec_clean_statement(stmt: Seq<char>) -> Seq<char> {
    spec_trim(join_lines(kept_lines(split_on(stmt, '\n'))))
}

/// The cleaned, non-empty statements of a migration file, in order.
pub open spec fn spec_sql_statements(segments: Seq<Seq<char>>) -> Seq<Seq<char>>
    decreases segments.len(),
{
    if segments.len() == 0 {
        segments
    } else {
        let rest = spec_sql_statements(segments.drop_last());
        let cleaned = spec_clean_statement(segments.last());
        if cleaned.len() == 0 {
            rest
        } else {
            rest.push(cleaned)
        }
    }
}

/// The views of a vector of strings.
pub open spec fn views(v: Seq<String>) -> Seq<Seq<char>> {
    v.map_values(|x: String| x@)
}

/// Splits a string on a separator character.
fn split_string(s: &str, sep: char) -> (r: Vec<String>)
    ensures
        views(r@) == split_on(s@, sep),
{
    let len = s.unicode_len();
    let mut out: Vec<String> = Vec::new();
    let mut cur = String::new();
    let mut i: usize = 0;
    assert(split_on(s@.take(0), sep) =~= views(out@).push(cur@));
    while i < len
        invariant
            len == s@.len(),
            0 <= i <= len,
            split_on(s@.take(i as int), sep) == views(out@).push(cur@),
        decreases len - i,
    {
        let c = s.get_char(i);
        proof {
            assert(s@.take(i + 1).drop_last() =~= s@.take(i as int));
            assert(s@.take(i + 1).last() == s@[i as int]);
        }
        if c == sep {
            let ghost pre_out = out@;
            let ghost pre_cur = cur@;
            out.push(cur);
            cur = String::new();
            proof {
                assert(views(out@) =~= views(pre_out).push(pre_cur));
                assert(split_on(s@.take(i + 1), sep) =~= views(out@).push(cur@));
            }
        } else {
            let ghost pre = views(out@).push(cur@);
            push_char(&mut cur, c);
            proof {
                assert(pre.update(pre.len() - 1, pre.last().push(c)) =~= views(out@).push(cur@));
            }
        }
        i = i + 1;
    }
    assert(s@.take(len as int) =~= s@);
    let ghost pre_out = out@;
    let ghost pre_cur = cur@;
    out.push(cur);
    proof {
        assert(views(out@) =~= views(pre_out).push(pre_cur));
    }
    out
}

proof fn lemma_trim_left_skip(s: Seq<char>, a: int)
    requires
        0 <= a <= s.len(),
        forall|j: int| 0 <= j < a ==> is_sql_space(#[trigger] s[j]),
        a == s.len() || !is_sql_space(s[a]),
    ensures
        trim_left(s) == s.skip(a),
    decreases a,
{
    if a == 0 {
        assert(s.skip(0) =~= s);
    } else {
        let t = s.skip(1);
        assert(forall|j: int| 0 <= j < a - 1 ==> is_sql_space(#[trigger] t[j]));
        lemma_trim_left_skip(t, a - 1);
        assert(t.skip(a - 1) =~= s.skip(a));
    }
}

proof fn lemma_trim_right_take(s: Seq<char>, b: int)
    requires
        0 <= b <= s.len(),
        forall|j: int| b <= j < s.len() ==> is_sql_space(#[trigger] s[j]),
        b == 0 || !is_sql_space(s[b - 1]),
    ensures
        trim_right(s) == s.take(b),
    decreases s.len() - b,
{
    if b == s.len() {
        assert(s.take(b) =~= s);
    } else {
        lemma_trim_right_take(s.drop_last(), b);
        assert(s.drop_last().take(b) =~= s.take(b));
    }
}

/// Trims ASCII whitespace from both ends.
fn trim_string(s: &str) -> (r: String)
    ensures
        r@ == spec_trim(s@),
{
    let len = s.unicode_len();
    let mut a: usize = 0;
    while a < len && is_space_char(s.get_char(a))
        invariant
            len == s@.len(),
            0 <= a <= len,
            forall|j: int| 0 <= j < a ==> is_sql_space(#[trigger] s@[j]),
        decreases len - a,
    {
        a = a + 1;
    }
    proof {
        lemma_trim_left_skip(s@, a as int);
    }
    if a == len {
        assert(trim_left(s@) =~= Seq::<char>::empty());
        return String::new();
    }
    let mut b: usize = len;
    while b > a && is_space_char(s.get_char(b - 1))
        invariant
            len == s@.len(),
            a <= b <= len,
            a < len,
            !is_sql_space(s@[a as int]),
            forall|j: int| b <= j < len ==> is_sql_space(#[trigger] s@[j]),
        decreases b,
    {
        b = b - 1;
    }
    let r = s.substring_char(a, b).to_owned();
    proof {
        let t = s@.skip(a as int);
        assert(forall|j: int|
            (b - a) <= j < t.len() ==> is_sql_space(#[trigger] t[j]));
        assert(b > a && !is_sql_space(t[b - a - 1]));
        lemma_trim_right_take(t, b - a);
        assert(t.take(b - a) =~= s@.subrange(a as int, b as int));
        assert(r@ == spec_trim(s@));
    }
    r
}

fn is_space_char(c: char) -> (r: bool)
    ensures
        r == is_sql_space(c),
{
    c == ' ' || c == '\t' || c == '\r' || c == '\n'
}

/// Whether the line's first non-space characters open a comment.
fn is_comment(line: &str) -> (r: bool)
    ensures
        r == is_comment_line(line@),
{
    let len = line.unicode_len();
    let mut a: usize = 0;
    while a < len && is_space_char(line.get_char(a))
        invariant
            len == line@.len(),
            0 <= a <= len,
            forall|j: int| 0 <= j < a ==> is_sql_space(#[trigger] line@[j]),
        decreases len - a,
    {
        a = a + 1;
    }
    proof {
        lemma_trim_left_skip(line@, a as int);
    }
    if len - a >= 2 {
        line.get_char(a) == '-' && line.get_char(a + 1) == '-'
    } else {
        false
    }
}

/// Cleans one raw fragment: drops comment lines, rejoins, trims.
fn clean_statement(stmt: &str) -> (r: String)
    ensures
        r@ == spec_clean_statement(stmt@),
{
    let lines = split_string(stmt, '\n');
    let n = lines.len();
    let mut kept: Vec<String> = Vec::new();
    let mut i: usize = 0;
    while i < n
        invariant
            n == lines@.len(),
            views(lines@) == split_on(stmt@, '\n'),
            0 <= i <= n,
            views(kept@) == kept_lines(views(lines@).take(i as int)),
        decreases n - i,
    {
        proof {
            assert(views(lines@).take(i + 1).drop_last() =~= views(lines@).take(i as int));
            assert(views(lines@).take(i + 1).last() == lines@[i as int]@);
        }
        if !is_comment(lines[i].as_str()) {
            let ghost pre = kept@;
            kept.push(lines[i].clone());
            assert(views(kept@) =~= views(pre).push(lines@[i as int]@));
        }
        i = i + 1;
    }
    assert(views(lines@).take(n as int) =~= views(lines@));
    let m = kept.len();
    let mut joined = String::new();
    let mut k: usize = 0;
    while k < m
        invariant
            m == kept@.len(),
            views(kept@) == kept_lines(split_on(stmt@, '\n')),
            0 <= k <= m,
            joined@ == join_lines(views(kept@).take(k as int)),
        decreases m - k,
    {
        proof {
            assert(views(kept@).take(k + 1).drop_last() =~= views(kept@).take(k as int));
            assert(views(kept@).take(k + 1).last() == kept@[k as int]@);
        }
        if k > 0 {
            push_char(&mut joined, '\n');
        } else {
            assert(views(kept@).take(1).len() == 1);
        }
        joined.append(kept[k].as_str());
        assert(joined@ =~= join_lines(views(kept@).take(k + 1)));
        k = k + 1;
    }
    assert(views(kept@).take(m as int) =~= views(kept@));
    trim_string(joined.as_str())
}

/// The executable statements of one migration file, in file order: split on
/// semicolons, comment lines removed, trimmed, empty fragments skipped.
pub fn sql_statements(text: &str) -> (r: Vec<String>)
    ensures
        views(r@) == spec_sql_statements(split_on(text@, ';')),
{
    let segments = split_string(text, ';');
    let n = segments.len();
    let mut out: Vec<String> = Vec::new();
    let mut i: usize = 0;
    while i < n
        invariant
            n == segments@.len(),
            views(segments@) == split_on(text@, ';'),
            0 <= i <= n,
            views(out@) == spec_sql_statements(views(segments@).take(i as int)),
        decreases n - i,
    {
        proof {
            assert(views(segments@).take(i + 1).drop_last() =~= views(segments@).take(i as int));
            assert(views(segments@).take(i + 1).last() == segments@[i as int]@);
        }
        let cleaned = clean_statement(segments[i].as_str());
        if !cleaned.as_str().is_empty() {
            let ghost pre = out@;
            out.push(cleaned);
            assert(views(out@) =~= views(pre).push(
                spec_clean_statement(segments@[i as int]@),
            ));
        }
        i = i + 1;
    }
    assert(views(segments@).take(n as int) =~= views(segments@));
    out
}

} // verus!
