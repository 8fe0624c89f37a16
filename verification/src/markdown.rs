//! Replacing the Mermaid diagram that follows a section header in a
//! Markdown document.
use vstd::prelude::*;
use crate::text::{push_chars, push_char, copy_range, trim, chars_of, trim_chars, starts_with, same_chars};

verus! {

/// Index of the first `'\n'` in `s` at or after `i`, or `s.len()` if none.
pub open spec fn line_end(s: Seq<char>, i: int) -> int
    decreases s.len() - i,
{
    if i >= s.len() {
        s.len() as int
    } else if s[i] == '\n' {
        i
    } else {
        line_end(s, i + 1)
    }
}

/// `l` without one trailing carriage return.
pub open spec fn strip_cr(l: Seq<char>) -> Seq<char> {
    if l.len() > 0 && l.last() == '\r' {
        l.drop_last()
    } else {
        l
    }
}

pub proof fn lemma_line_end_bounds(s: Seq<char>, i: int)
    requires
        0 <= i,
    ensures
        i <= line_end(s, i) || i > s.len(),
        line_end(s, i) <= s.len(),
        line_end(s, i) < s.len() ==> s[line_end(s, i)] == '\n',
    decreases s.len() - i,
{
    if i < s.len() && s[i] != '\n' {
        lemma_line_end_bounds(s, i + 1);
    }
}

/// `str::lines`: the lines of `s`, split at `"\n"` or `"\r\n"`, without
/// their terminators; a final line terminator yields no extra empty line.
pub open spec fn lines(s: Seq<char>) -> Seq<Seq<char>>
    decreases s.len(),
{
    if s.len() == 0 {
        seq![]
    } else {
        let k = line_end(s, 0);
        proof {
            lemma_line_end_bounds(s, 0);
        }
        if k < s.len() {
            seq![strip_cr(s.take(k))] + lines(s.skip(k + 1))
        } else {
            seq![s]
        }
    }
}

/// `[String]::join("\n")`.
pub open spec fn join_lines(ls: Seq<Seq<char>>) -> Seq<char>
    decreases ls.len(),
{
    if ls.len() == 0 {
        seq![]
    } else if ls.len() == 1 {
        ls[0]
    } else {
        join_lines(ls.drop_last()) + seq!['\n'] + ls.last()
    }
}

/// The views of a sequence of character vectors.
pub open spec fn views(ls: Seq<Vec<char>>) -> Seq<Seq<char>> {
    ls.map_values(|l: Vec<char>| l@)
}

proof fn lemma_line_end_at(s: Seq<char>, i: int, m: int)
    requires
        0 <= i <= m <= s.len(),
        forall|j: int| i <= j < m ==> s[j] != '\n',
        m == s.len() || s[m] == '\n',
    ensures
        line_end(s, i) == m,
    decreases m - i,
{
    if i < m {
        lemma_line_end_at(s, i + 1, m);
    }
}

/// Splits `v` into its lines, as `str::lines` does.
pub fn split_lines(v: &Vec<char>) -> (r: Vec<Vec<char>>)
    ensures
        views(r@) == lines(v@),
{
    let n = v.len();
    let mut out: Vec<Vec<char>> = Vec::new();
    let mut st: usize = 0;
    let mut i: usize = 0;
    assert(v@.skip(0) =~= v@);
    assert(views(out@) =~= seq![]);
    while i < n
        invariant
            st <= i <= n,
            n == v@.len(),
            forall|j: int| st <= j < i ==> v@[j] != '\n',
            lines(v@) == views(out@) + lines(v@.skip(st as int)),
        decreases n - i,
    {
        if v[i] == '\n' {
            let ghost t = v@.skip(st as int);
            proof {
                lemma_line_end_at(t, 0, (i - st) as int);
                assert(t.take((i - st) as int) =~= v@.subrange(st as int, i as int));
                assert(t.skip((i - st) as int + 1) =~= v@.skip(i + 1));
            }
            let mut line = copy_range(v, st, i);
            if line.len() > 0 && line[line.len() - 1] == '\r' {
                line.pop();
            }
            let ghost prev = out@;
            out.push(line);
            assert(views(out@) =~= views(prev) + seq![strip_cr(t.take((i - st) as int))]);
            st = i + 1;
        }
        i = i + 1;
    }
    if st < n {
        let ghost t = v@.skip(st as int);
        proof {
            lemma_line_end_at(t, 0, t.len() as int);
        }
        let line = copy_range(v, st, n);
        let ghost prev = out@;
        assert(line@ =~= t);
        out.push(line);
        assert(views(out@) =~= views(prev) + seq![t]);
    } else {
        assert(v@.skip(st as int).len() == 0);
        assert(views(out@) + lines(v@.skip(st as int)) =~= views(out@));
    }
    out
}


/// Joins `ls` with `'\n'` between consecutive lines.
pub fn join_with_newlines(ls: &Vec<Vec<char>>) -> (s: String)
    ensures
        s@ == join_lines(views(ls@)),
{
    let n = ls.len();
    let mut s = String::new();
    let mut i: usize = 0;
    while i < n
        invariant
            i <= n,
            n == ls@.len(),
            s@ == join_lines(views(ls@).take(i as int)),
        decreases n - i,
    {
        let ghost t = views(ls@).take(i as int + 1);
        assert(t.drop_last() =~= views(ls@).take(i as int));
        if i > 0 {
            push_char(&mut s, '\n');
        }
        push_chars(&mut s, &ls[i]);
        i = i + 1;
    }
    assert(views(ls@).take(n as int) =~= views(ls@));
    s
}

/// The opening line of a Mermaid block starts with this marker.
pub open spec fn mermaid_start() -> Seq<char> {
    seq!['`', '`', '`', 'm', 'e', 'r', 'm', 'a', 'i', 'd']
}

/// A line that closes a Mermaid block starts with this marker.
pub open spec fn fence() -> Seq<char> {
    seq!['`', '`', '`']
}

/// Whether line `l` is empty once trimmed.
pub open spec fn is_blank(l: Seq<char>) -> bool {
    trim(l).len() == 0
}

/// First index at or after `i` whose line is not blank (or `ls.len()`).
pub open spec fn skip_blank(ls: Seq<Seq<char>>, i: int) -> int
    decreases ls.len() - i,
{
    if 0 <= i < ls.len() && is_blank(ls[i]) {
        skip_blank(ls, i + 1)
    } else {
        i
    }
}

/// Index just past the first line at or after `i` that (trimmed) starts with
/// the fence, or `ls.len()` when there is none.
pub open spec fn block_end(ls: Seq<Seq<char>>, i: int) -> int
    decreases ls.len() - i,
{
    if i >= ls.len() {
        ls.len() as int
    } else if fence().is_prefix_of(trim(ls[i])) {
        i + 1
    } else {
        block_end(ls, i + 1)
    }
}

/// Where the original text resumes after a matching header at `i - 1`:
/// blank lines are dropped, and so is a Mermaid block that follows them.
pub open spec fn resume_after_header(ls: Seq<Seq<char>>, i: int) -> int {
    let j = skip_blank(ls, i);
    if 0 <= j < ls.len() && mermaid_start().is_prefix_of(trim(ls[j])) {
        block_end(ls, j + 1)
    } else {
        j
    }
}

pub proof fn lemma_resume_bounds(ls: Seq<Seq<char>>, i: int)
    requires
        0 <= i <= ls.len(),
    ensures
        i <= skip_blank(ls, i) <= ls.len(),
        i <= resume_after_header(ls, i) <= ls.len(),
    decreases ls.len() - i,
{
    if i < ls.len() && is_blank(ls[i]) {
        lemma_resume_bounds(ls, i + 1);
    }
    let j = skip_blank(ls, i);
    if 0 <= j < ls.len() && mermaid_start().is_prefix_of(trim(ls[j])) {
        lemma_block_end_bounds(ls, j + 1);
    }
}

pub proof fn lemma_block_end_bounds(ls: Seq<Seq<char>>, i: int)
    requires
        0 <= i <= ls.len(),
    ensures
        i <= block_end(ls, i) <= ls.len(),
    decreases ls.len() - i,
{
    if i < ls.len() && !fence().is_prefix_of(trim(ls[i])) {
        lemma_block_end_bounds(ls, i + 1);
    }
}

/// The lines from index `i` on, with the diagram `d` placed after each line
/// that trims to `header`, in place of what followed that header.
pub open spec fn rewrite_from(ls: Seq<Seq<char>>, i: int, header: Seq<char>, d: Seq<char>) -> Seq<
    Seq<char>,
>
    decreases ls.len() - i,
{
    if i < 0 || i >= ls.len() {
        seq![]
    } else if trim(ls[i]) == header {
        proof {
            lemma_resume_bounds(ls, i + 1);
        }
        seq![ls[i], d] + rewrite_from(ls, resume_after_header(ls, i + 1), header, d)
    } else {
        seq![ls[i]] + rewrite_from(ls, i + 1, header, d)
    }
}

/// The header line of section `section`.
pub open spec fn section_header(section: Seq<char>) -> Seq<char> {
    seq!['#', '#', ' '] + section
}

/// What `replace_section_diagram` returns.
pub open spec fn replaced(content: Seq<char>, section: Seq<char>, d: Seq<char>) -> Seq<char> {
    join_lines(rewrite_from(lines(content), 0, section_header(section), d))
}

proof fn lemma_rewrite_without_header(ls: Seq<Seq<char>>, i: int, header: Seq<char>, d: Seq<char>)
    requires
        0 <= i <= ls.len(),
        forall|k: int| 0 <= k < ls.len() ==> trim(#[trigger] ls[k]) != header,
    ensures
        rewrite_from(ls, i, header, d) == ls.skip(i),
    decreases ls.len() - i,
{
    if i < ls.len() {
        lemma_rewrite_without_header(ls, i + 1, header, d);
        assert(seq![ls[i]] + ls.skip(i + 1) =~= ls.skip(i));
    } else {
        assert(ls.skip(i) =~= Seq::<Seq<char>>::empty());
    }
}

/// A document with no line that reads as the section's header keeps its
/// lines: replacing the section's diagram only rejoins them with `'\n'`.
pub proof fn lemma_replace_without_header(content: Seq<char>, section: Seq<char>, d: Seq<char>)
    requires
        forall|k: int| 0 <= k < lines(content).len() ==> trim(#[trigger] lines(content)[k]) != section_header(section),
    ensures
        replaced(content, section, d) == join_lines(lines(content)),
{
    lemma_rewrite_without_header(lines(content), 0, section_header(section), d);
    assert(lines(content).skip(0) =~= lines(content));
}

fn skip_blank_lines(ls: &Vec<Vec<char>>, i: usize) -> (j: usize)
    requires
        i <= ls@.len(),
    ensures
        j == skip_blank(views(ls@), i as int),
{
    let n = ls.len();
    let mut j = i;
    while j < n && trim_chars(&ls[j]).len() == 0
        invariant
            i <= j <= n,
            n == ls@.len(),
            skip_blank(views(ls@), i as int) == skip_blank(views(ls@), j as int),
        decreases n - j,
    {
        j = j + 1;
    }
    j
}

fn find_block_end(ls: &Vec<Vec<char>>, i: usize, fence_chars: &Vec<char>) -> (j: usize)
    requires
        i <= ls@.len(),
        fence_chars@ == fence(),
    ensures
        j == block_end(views(ls@), i as int),
{
    let n = ls.len();
    let mut j = i;
    while j < n
        invariant
            i <= j <= n,
            n == ls@.len(),
            fence_chars@ == fence(),
            block_end(views(ls@), i as int) == block_end(views(ls@), j as int),
        decreases n - j,
    {
        let t = trim_chars(&ls[j]);
        assert(views(ls@)[j as int] == ls@[j as int]@);
        if starts_with(&t, fence_chars) {
            return j + 1;
        }
        j = j + 1;
    }
    j
}

/// Replaces the old diagram in a specific section of a markdown file.
///
/// Every line that, trimmed, reads `## {section}` is kept and followed by
/// `new_diagram`; the blank lines after it are dropped, and so is a Mermaid
/// block (from a line starting with three backticks and `mermaid` up to and
/// including the next line starting with three backticks) that follows them.
/// The lines are joined with `'\n'`.
pub fn replace_section_diagram(content: &str, section: &str, new_diagram: &str) -> (r: String)
    ensures
        r@ == replaced(content@, section@, new_diagram@),
{
    let cv = chars_of(content);
    let ls = split_lines(&cv);
    let mut header: Vec<char> = Vec::new();
    header.push('#');
    header.push('#');
    header.push(' ');
    let sv = chars_of(section);
    header.append(&mut sv.clone());
    assert(header@ =~= section_header(section@));
    let d = chars_of(new_diagram);
    let mut start: Vec<char> = Vec::new();
    start.push('`');
    start.push('`');
    start.push('`');
    let fence_chars = start.clone();
    start.push('m');
    start.push('e');
    start.push('r');
    start.push('m');
    start.push('a');
    start.push('i');
    start.push('d');
    assert(fence_chars@ =~= fence());
    assert(start@ =~= mermaid_start());
    let ghost lv = views(ls@);
    let n = ls.len();
    let mut out: Vec<Vec<char>> = Vec::new();
    let mut i: usize = 0;
    assert(views(out@) =~= seq![]);
    while i < n
        invariant
            i <= n,
            n == ls@.len(),
            lv == views(ls@),
            lv == lines(content@),
            header@ == section_header(section@),
            d@ == new_diagram@,
            fence_chars@ == fence(),
            start@ == mermaid_start(),
            rewrite_from(lv, 0, header@, d@) == views(out@) + rewrite_from(lv, i as int, header@, d@),
        decreases n - i,
    {
        let t = trim_chars(&ls[i]);
        let ghost prev = out@;
        out.push(ls[i].clone());
        if same_chars(&t, &header) {
            out.push(d.clone());
            assert(views(out@) =~= views(prev) + seq![lv[i as int], d@]);
            proof {
                lemma_resume_bounds(lv, i + 1);
            }
            let j = skip_blank_lines(&ls, i + 1);
            let mut k = j;
            if j < n {
                let tj = trim_chars(&ls[j]);
                if starts_with(&tj, &start) {
                    k = find_block_end(&ls, j + 1, &fence_chars);
                }
            }
            assert(k == resume_after_header(lv, i + 1));
            i = k;
        } else {
            assert(views(out@) =~= views(prev) + seq![lv[i as int]]);
            i = i + 1;
        }
    }
    join_with_newlines(&out)
}

} // verus!
