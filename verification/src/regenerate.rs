//! Replacing a section's diagram a second time with the same diagram
//! changes nothing.
use vstd::prelude::*;
use crate::markdown::{
    block_end, fence, is_blank, join_lines, line_end, lines, lemma_line_end_bounds, mermaid_start,
    replaced, resume_after_header, rewrite_from, section_header, skip_blank, strip_cr,
    lemma_resume_bounds,
};
use crate::text::{is_ws, trim, trim_start};

verus! {

proof fn lemma_line_end_shift(a: Seq<char>, b: Seq<char>, i: int)
    requires
        0 <= i <= a.len(),
        line_end(a, i) < a.len(),
    ensures
        line_end(a + b, i) == line_end(a, i),
    decreases a.len() - i,
{
    lemma_line_end_bounds(a, i);
    if a[i] != '\n' {
        lemma_line_end_shift(a, b, i + 1);
    }
}

proof fn lemma_line_end_none(a: Seq<char>, b: Seq<char>, i: int)
    requires
        0 <= i <= a.len(),
        line_end(a, i) == a.len(),
    ensures
        line_end(a + b, i) == a.len() + line_end(b, 0),
    decreases a.len() - i,
{
    if i < a.len() {
        assert(a[i] != '\n') by {
            lemma_line_end_bounds(a, i);
            if a[i] == '\n' {
                assert(line_end(a, i) == i);
            }
        }
        lemma_line_end_none(a, b, i + 1);
    } else {
        lemma_line_end_offset(a, b, 0);
    }
}

proof fn lemma_line_end_offset(a: Seq<char>, b: Seq<char>, j: int)
    requires
        0 <= j,
    ensures
        line_end(a + b, a.len() + j) == a.len() + line_end(b, j),
    decreases b.len() - j,
{
    if j < b.len() {
        assert((a + b)[a.len() + j] == b[j]);
        if b[j] != '\n' {
            lemma_line_end_offset(a, b, j + 1);
        }
    }
}

/// Splitting at a line feed: the lines of `a` terminated, then those of `b`.
pub proof fn lemma_lines_split(a: Seq<char>, b: Seq<char>)
    ensures
        lines(a.push('\n') + b) == lines(a.push('\n')) + lines(b),
    decreases a.len(),
{
    let s = a.push('\n') + b;
    let t = a.push('\n');
    lemma_line_end_bounds(t, 0);
    lemma_line_end_bounds(s, 0);
    assert(t[a.len() as int] == '\n');
    assert(line_end(t, 0) < t.len()) by {
        if line_end(t, 0) == t.len() {
            lemma_line_end_no_newline(t, 0);
        }
    }
    lemma_line_end_shift(t, b, 0);
    let k = line_end(t, 0);
    assert(s.take(k) =~= t.take(k));
    if k == a.len() {
        assert(t.skip(k + 1) =~= Seq::<char>::empty());
        assert(s.skip(k + 1) =~= b);
        assert(lines(t.skip(k + 1)) =~= Seq::<Seq<char>>::empty());
        assert(lines(s) == seq![strip_cr(s.take(k))] + lines(s.skip(k + 1)));
        assert(lines(t) == seq![strip_cr(t.take(k))] + lines(t.skip(k + 1)));
    } else {
        let a2 = a.skip(k + 1);
        assert(t.skip(k + 1) =~= a2.push('\n'));
        assert(s.skip(k + 1) =~= a2.push('\n') + b);
        lemma_lines_split(a2, b);
        assert(lines(s) == seq![strip_cr(s.take(k))] + lines(s.skip(k + 1)));
        assert(lines(t) == seq![strip_cr(t.take(k))] + lines(t.skip(k + 1)));
    }
}

proof fn lemma_line_end_no_newline(t: Seq<char>, i: int)
    requires
        0 <= i <= t.len(),
        line_end(t, i) == t.len(),
    ensures
        forall|j: int| i <= j < t.len() ==> t[j] != '\n',
    decreases t.len() - i,
{
    if i < t.len() {
        if t[i] == '\n' {
            assert(line_end(t, i) == i);
        }
        lemma_line_end_no_newline(t, i + 1);
    }
}

proof fn lemma_line_end_first(t: Seq<char>, i: int, m: int)
    requires
        0 <= i <= m <= t.len(),
        forall|j: int| i <= j < m ==> t[j] != '\n',
        m == t.len() || t[m] == '\n',
    ensures
        line_end(t, i) == m,
    decreases m - i,
{
    if i < m {
        lemma_line_end_first(t, i + 1, m);
    }
}

/// A text without line feed, terminated, is one line (without a trailing
/// carriage return); unterminated and non-empty, it is one line as it is.
pub proof fn lemma_lines_single(m: Seq<char>)
    requires
        !m.contains('\n'),
    ensures
        lines(m.push('\n')) == seq![strip_cr(m)],
        m.len() > 0 ==> lines(m) == seq![m],
{
    let t = m.push('\n');
    assert forall|j: int| 0 <= j < m.len() implies t[j] != '\n' by {
        assert(t[j] == m[j]);
    }
    lemma_line_end_first(t, 0, m.len() as int);
    assert(t.take(m.len() as int) =~= m);
    assert(t.skip(m.len() as int + 1) =~= Seq::<char>::empty());
    assert(lines(t.skip(m.len() as int + 1)) =~= Seq::<Seq<char>>::empty());
    assert(lines(t) == seq![strip_cr(t.take(m.len() as int))] + lines(t.skip(m.len() as int + 1)));
    assert(lines(t) =~= seq![strip_cr(m)]);
    if m.len() > 0 {
        lemma_line_end_first(m, 0, m.len() as int);
    }
}

/// Terminating a non-empty text that does not end with a line feed keeps
/// its lines, except that the last loses one trailing carriage return.
pub proof fn lemma_lines_terminated_cr(s: Seq<char>)
    requires
        s.len() > 0,
        s.last() != '\n',
    ensures
        lines(s.push('\n')).len() == lines(s).len(),
        lines(s).len() > 0,
        lines(s.push('\n')).drop_last() == lines(s).drop_last(),
        lines(s.push('\n')).last() == strip_cr(lines(s).last()),
    decreases s.len(),
{
    let t = s.push('\n');
    lemma_line_end_bounds(s, 0);
    let k = line_end(s, 0);
    if k < s.len() {
        lemma_line_end_shift(s, seq!['\n'], 0);
        assert(t =~= s + seq!['\n']);
        assert(t.take(k) =~= s.take(k));
        let r = s.skip(k + 1);
        assert(t.skip(k + 1) =~= r.push('\n'));
        assert(k < s.len() - 1) by {
            assert(s[k] == '\n');
        }
        assert(r.last() == s.last());
        lemma_lines_terminated_cr(r);
        let a = seq![strip_cr(s.take(k))];
        assert(lines(s) == a + lines(r));
        assert(lines(t) == a + lines(r.push('\n')));
        assert((a + lines(r.push('\n'))).drop_last() =~= a + lines(r.push('\n')).drop_last());
        assert((a + lines(r)).drop_last() =~= a + lines(r).drop_last());
    } else {
        lemma_line_end_no_newline(s, 0);
        assert(!s.contains('\n'));
        lemma_lines_single(s);
    }
}

/// No line holds a line feed.
pub proof fn lemma_lines_have_no_newline(s: Seq<char>)
    ensures
        forall|k: int| 0 <= k < lines(s).len() ==> !(#[trigger] lines(s)[k]).contains('\n'),
    decreases s.len(),
{
    if s.len() > 0 {
        lemma_line_end_bounds(s, 0);
        let k = line_end(s, 0);
        if k < s.len() {
            lemma_lines_have_no_newline(s.skip(k + 1));
            lemma_line_end_no_newline_prefix(s, k);
            let first = strip_cr(s.take(k));
            assert(!first.contains('\n')) by {
                if first.contains('\n') {
                    let j = choose|j: int| 0 <= j < first.len() && first[j] == '\n';
                    assert(s[j] == '\n');
                }
            }
            assert forall|q: int| 0 <= q < lines(s).len() implies !(#[trigger] lines(s)[q]).contains('\n') by {
                if q > 0 {
                    assert(lines(s)[q] == lines(s.skip(k + 1))[q - 1]);
                }
            }
        } else {
            lemma_line_end_no_newline(s, 0);
        }
    }
}

proof fn lemma_line_end_no_newline_prefix(s: Seq<char>, k: int)
    requires
        0 <= k <= s.len(),
        k == line_end(s, 0),
    ensures
        forall|j: int| 0 <= j < k ==> s[j] != '\n',
{
    lemma_line_end_before(s, 0);
}

proof fn lemma_line_end_before(s: Seq<char>, i: int)
    requires
        0 <= i,
    ensures
        forall|j: int| i <= j < line_end(s, i) ==> s[j] != '\n',
    decreases s.len() - i,
{
    if i < s.len() && s[i] != '\n' {
        lemma_line_end_before(s, i + 1);
    }
}


/// `ms` with each item equal to `d` replaced by the lines `dl`.
pub open spec fn expand(ms: Seq<Seq<char>>, d: Seq<char>, dl: Seq<Seq<char>>) -> Seq<Seq<char>>
    decreases ms.len(),
{
    if ms.len() == 0 {
        seq![]
    } else {
        (if ms[0] == d {
            dl
        } else {
            seq![ms[0]]
        }) + expand(ms.drop_first(), d, dl)
    }
}

proof fn lemma_expand_push(ms: Seq<Seq<char>>, m: Seq<char>, d: Seq<char>, dl: Seq<Seq<char>>)
    ensures
        expand(ms.push(m), d, dl) == expand(ms, d, dl) + if m == d {
            dl
        } else {
            seq![m]
        },
    decreases ms.len(),
{
    if ms.len() == 0 {
        assert(ms.push(m).drop_first() =~= Seq::<Seq<char>>::empty());
        assert(expand(ms.push(m), d, dl) =~= (if m == d {
            dl
        } else {
            seq![m]
        }) + expand(Seq::<Seq<char>>::empty(), d, dl));
    } else {
        assert(ms.push(m).drop_first() =~= ms.drop_first().push(m));
        lemma_expand_push(ms.drop_first(), m, d, dl);
        assert(ms.push(m)[0] == ms[0]);
    }
}

/// `ms` with each item equal to `d` replaced by the lines `dt`, or by `dl`
/// where it is the last item.
pub open spec fn expand_last(ms: Seq<Seq<char>>, d: Seq<char>, dt: Seq<Seq<char>>, dl: Seq<Seq<char>>) -> Seq<
    Seq<char>,
>
    decreases ms.len(),
{
    if ms.len() == 0 {
        seq![]
    } else {
        (if ms[0] == d {
            if ms.len() == 1 {
                dl
            } else {
                dt
            }
        } else {
            seq![ms[0]]
        }) + expand_last(ms.drop_first(), d, dt, dl)
    }
}

proof fn lemma_expand_last_split(ms: Seq<Seq<char>>, d: Seq<char>, dt: Seq<Seq<char>>, dl: Seq<Seq<char>>)
    requires
        ms.len() > 0,
    ensures
        expand_last(ms, d, dt, dl) == expand(ms.drop_last(), d, dt) + if ms.last() == d {
            dl
        } else {
            seq![ms.last()]
        },
    decreases ms.len(),
{
    let piece = if ms.last() == d {
        dl
    } else {
        seq![ms.last()]
    };
    if ms.len() == 1 {
        assert(ms.drop_first() =~= Seq::<Seq<char>>::empty());
        assert(ms.drop_last() =~= Seq::<Seq<char>>::empty());
        assert(expand_last(ms, d, dt, dl) =~= piece + expand_last(ms.drop_first(), d, dt, dl));
        assert(piece + Seq::<Seq<char>>::empty() =~= piece);
        assert(Seq::<Seq<char>>::empty() + piece =~= piece);
    } else {
        let df = ms.drop_first();
        lemma_expand_last_split(df, d, dt, dl);
        assert(df.drop_last() =~= ms.drop_last().drop_first());
        assert(df.last() == ms.last());
        assert(ms.drop_last()[0] == ms[0]);
        let p0 = if ms[0] == d {
            dt
        } else {
            seq![ms[0]]
        };
        assert(expand(ms.drop_last(), d, dt) == p0 + expand(ms.drop_last().drop_first(), d, dt));
        assert(p0 + (expand(df.drop_last(), d, dt) + piece) =~= (p0 + expand(df.drop_last(), d, dt)) + piece);
    }
}

/// Whether `m` is the diagram `d` or a line without line feed that does
/// not end with a carriage return.
pub open spec fn line_like(m: Seq<char>, d: Seq<char>) -> bool {
    m == d || (!m.contains('\n') && !(m.len() > 0 && m.last() == '\r'))
}

proof fn lemma_join_terminated(ms: Seq<Seq<char>>, d: Seq<char>)
    requires
        ms.len() > 0,
        forall|k: int| 0 <= k < ms.len() ==> line_like(#[trigger] ms[k], d),
    ensures
        lines(join_lines(ms).push('\n')) == expand(ms, d, lines(d.push('\n'))),
    decreases ms.len(),
{
    let dt = lines(d.push('\n'));
    let m = ms.last();
    assert(line_like(ms[ms.len() - 1], d));
    let piece = if m == d {
        dt
    } else {
        seq![m]
    };
    assert(lines(m.push('\n')) == piece) by {
        if m != d {
            lemma_lines_single(m);
        }
    }
    lemma_expand_push(ms.drop_last(), m, d, dt);
    assert(ms.drop_last().push(m) =~= ms);
    if ms.len() == 1 {
        assert(expand(ms.drop_last(), d, dt) =~= Seq::<Seq<char>>::empty());
        assert(join_lines(ms) == ms[0]);
    } else {
        let a = join_lines(ms.drop_last());
        assert forall|k: int| 0 <= k < ms.drop_last().len() implies line_like(#[trigger] ms.drop_last()[k], d) by {
            assert(ms.drop_last()[k] == ms[k]);
        }
        lemma_join_terminated(ms.drop_last(), d);
        assert(join_lines(ms).push('\n') =~= a.push('\n') + m.push('\n'));
        lemma_lines_split(a, m.push('\n'));
    }
}

/// The lines of the joined items are the items with `d` split into its
/// lines (the last line of a `d` followed by another item losing a trailing
/// carriage return), when every item but the last is `d` or a line that
/// does not end with a carriage return, and the last is `d` or a non-empty
/// line.
pub proof fn lemma_join_lines(ms: Seq<Seq<char>>, d: Seq<char>)
    requires
        ms.len() > 0,
        forall|k: int| 0 <= k < ms.len() - 1 ==> line_like(#[trigger] ms[k], d),
        ms.last() == d || (!ms.last().contains('\n') && ms.last().len() > 0),
    ensures
        lines(join_lines(ms)) == expand_last(ms, d, lines(d.push('\n')), lines(d)),
{
    let dt = lines(d.push('\n'));
    let m = ms.last();
    let piece = if m == d {
        lines(d)
    } else {
        seq![m]
    };
    assert(lines(m) == piece) by {
        if m != d {
            lemma_lines_single(m);
        }
    }
    lemma_expand_last_split(ms, d, dt, lines(d));
    if ms.len() == 1 {
        assert(ms.drop_last() =~= Seq::<Seq<char>>::empty());
        assert(expand(ms.drop_last(), d, dt) =~= Seq::<Seq<char>>::empty());
        assert(join_lines(ms) == ms[0]);
        assert(Seq::<Seq<char>>::empty() + piece =~= piece);
    } else {
        let a = join_lines(ms.drop_last());
        assert forall|k: int| 0 <= k < ms.drop_last().len() implies line_like(#[trigger] ms.drop_last()[k], d) by {
            assert(ms.drop_last()[k] == ms[k]);
        }
        lemma_join_terminated(ms.drop_last(), d);
        assert(join_lines(ms) =~= a.push('\n') + m);
        lemma_lines_split(a, m);
    }
}


proof fn lemma_skip_blank_shift(x: Seq<Seq<char>>, y: Seq<Seq<char>>, k: int, j: int)
    requires
        0 <= k <= x.len(),
        y == x.skip(k),
        0 <= j <= y.len(),
    ensures
        skip_blank(x, k + j) == k + skip_blank(y, j),
    decreases y.len() - j,
{
    if j < y.len() {
        assert(x[k + j] == y[j]);
        if is_blank(y[j]) {
            lemma_skip_blank_shift(x, y, k, j + 1);
        }
    }
}

proof fn lemma_block_end_shift(x: Seq<Seq<char>>, y: Seq<Seq<char>>, k: int, j: int)
    requires
        0 <= k <= x.len(),
        y == x.skip(k),
        0 <= j,
    ensures
        block_end(x, k + j) == k + block_end(y, j),
    decreases y.len() - j,
{
    if j < y.len() {
        assert(x[k + j] == y[j]);
        if !fence().is_prefix_of(trim(y[j])) {
            lemma_block_end_shift(x, y, k, j + 1);
        }
    }
}

proof fn lemma_resume_shift(x: Seq<Seq<char>>, y: Seq<Seq<char>>, k: int, j: int)
    requires
        0 <= k <= x.len(),
        y == x.skip(k),
        0 <= j <= y.len(),
    ensures
        resume_after_header(x, k + j) == k + resume_after_header(y, j),
{
    lemma_skip_blank_shift(x, y, k, j);
    lemma_resume_bounds(y, j);
    let sj = skip_blank(y, j);
    if 0 <= sj < y.len() {
        assert(x[k + sj] == y[sj]);
        lemma_block_end_shift(x, y, k, sj + 1);
    }
}

proof fn lemma_rewrite_shift(x: Seq<Seq<char>>, y: Seq<Seq<char>>, k: int, j: int, h: Seq<char>, d: Seq<char>)
    requires
        0 <= k <= x.len(),
        y == x.skip(k),
        0 <= j,
    ensures
        rewrite_from(x, k + j, h, d) == rewrite_from(y, j, h, d),
    decreases y.len() - j,
{
    if j < y.len() {
        assert(x[k + j] == y[j]);
        if trim(y[j]) == h {
            lemma_resume_shift(x, y, k, j + 1);
            lemma_resume_bounds(y, j + 1);
            let r = resume_after_header(y, j + 1);
            lemma_rewrite_shift(x, y, k, r, h, d);
        } else {
            lemma_rewrite_shift(x, y, k, j + 1, h, d);
        }
    }
}

/// Whether `dl` are the lines of a Mermaid block: at least two, the first
/// opening a Mermaid block, the last and no line between closing it.
pub open spec fn block_lines(dl: Seq<Seq<char>>) -> bool {
    &&& dl.len() >= 2
    &&& mermaid_start().is_prefix_of(trim(dl[0]))
    &&& fence().is_prefix_of(trim(dl.last()))
    &&& forall|k: int| 0 < k < dl.len() - 1 ==> !fence().is_prefix_of(trim(#[trigger] dl[k]))
}

/// Whether `d` is a Mermaid block that does not end with a line feed.
pub open spec fn is_mermaid_block(d: Seq<char>) -> bool {
    &&& d.len() > 0
    &&& d.last() != '\n'
    &&& block_lines(lines(d))
}

proof fn lemma_trim_start_push(y: Seq<char>, c: char)
    ensures
        trim_start(y.push(c)) == if trim_start(y).len() == 0 {
            trim_start(seq![c])
        } else {
            trim_start(y).push(c)
        },
    decreases y.len(),
{
    if y.len() == 0 {
        assert(y.push(c) =~= seq![c]);
    } else {
        assert(y.push(c)[0] == y[0]);
        assert(y.push(c).drop_first() =~= y.drop_first().push(c));
        if is_ws(y[0]) {
            lemma_trim_start_push(y.drop_first(), c);
        }
    }
}

/// Dropping one trailing carriage return does not change the trimmed line.
proof fn lemma_trim_strip_cr(x: Seq<char>)
    ensures
        trim(strip_cr(x)) == trim(x),
{
    if x.len() > 0 && x.last() == '\r' {
        let y = x.drop_last();
        assert(y.push('\r') =~= x);
        lemma_trim_start_push(y, '\r');
        assert(is_ws('\r'));
        if trim_start(y).len() == 0 {
            assert(seq!['\r'].drop_first() =~= Seq::<char>::empty());
            assert(trim_start(seq!['\r']) == trim_start(Seq::<char>::empty()));
        } else {
            let z = trim_start(y).push('\r');
            assert(z.drop_last() =~= trim_start(y));
        }
    }
}

/// The lines of a Mermaid block followed by a line feed are lines of a
/// Mermaid block too.
proof fn lemma_terminated_block(d: Seq<char>)
    requires
        is_mermaid_block(d),
    ensures
        block_lines(lines(d.push('\n'))),
{
    let dl = lines(d);
    let dt = lines(d.push('\n'));
    lemma_lines_terminated_cr(d);
    assert forall|k: int| 0 <= k < dt.len() - 1 implies dt[k] == dl[k] by {
        assert(dt[k] == dt.drop_last()[k]);
        assert(dl[k] == dl.drop_last()[k]);
    }
    lemma_trim_strip_cr(dl.last());
    assert(dt[0] == dl[0]);
    assert forall|k: int| 0 < k < dt.len() - 1 implies !fence().is_prefix_of(trim(#[trigger] dt[k])) by {
        assert(dt[k] == dl[k]);
    }
}

proof fn lemma_block_spans(x: Seq<Seq<char>>, dl: Seq<Seq<char>>, j: int)
    requires
        dl.len() >= 2,
        x.len() >= dl.len() + 1,
        forall|q: int| 0 <= q < dl.len() ==> x[q + 1] == dl[q],
        fence().is_prefix_of(trim(dl.last())),
        forall|q: int| 0 < q < dl.len() - 1 ==> !fence().is_prefix_of(trim(#[trigger] dl[q])),
        2 <= j <= dl.len(),
    ensures
        block_end(x, j) == dl.len() + 1,
    decreases dl.len() - j,
{
    assert(x[j] == dl[j - 1]);
    if j < dl.len() {
        lemma_block_spans(x, dl, j + 1);
    } else {
        assert(dl[j - 1] == dl.last());
    }
}

proof fn lemma_block_has_newline(d: Seq<char>)
    requires
        is_mermaid_block(d),
    ensures
        d.contains('\n'),
{
    if !d.contains('\n') {
        lemma_lines_single(d);
    }
}

proof fn lemma_rewrite_items(ls: Seq<Seq<char>>, i: int, h: Seq<char>, d: Seq<char>)
    requires
        forall|k: int| 0 <= k < ls.len() ==> !(#[trigger] ls[k]).contains('\n'),
    ensures
        forall|k: int|
            0 <= k < rewrite_from(ls, i, h, d).len() ==> #[trigger] rewrite_from(ls, i, h, d)[k] == d
                || !rewrite_from(ls, i, h, d)[k].contains('\n'),
    decreases ls.len() - i,
{
    if 0 <= i < ls.len() {
        if trim(ls[i]) == h {
            lemma_resume_bounds(ls, i + 1);
            let r = resume_after_header(ls, i + 1);
            lemma_rewrite_items(ls, r, h, d);
            let rest = rewrite_from(ls, r, h, d);
            assert forall|k: int| 0 <= k < rewrite_from(ls, i, h, d).len() implies #[trigger] rewrite_from(
                ls,
                i,
                h,
                d,
            )[k] == d || !rewrite_from(ls, i, h, d)[k].contains('\n') by {
                if k >= 2 {
                    assert(rewrite_from(ls, i, h, d)[k] == rest[k - 2]);
                }
            }
        } else {
            lemma_rewrite_items(ls, i + 1, h, d);
            let rest = rewrite_from(ls, i + 1, h, d);
            assert forall|k: int| 0 <= k < rewrite_from(ls, i, h, d).len() implies #[trigger] rewrite_from(
                ls,
                i,
                h,
                d,
            )[k] == d || !rewrite_from(ls, i, h, d)[k].contains('\n') by {
                if k >= 1 {
                    assert(rewrite_from(ls, i, h, d)[k] == rest[k - 1]);
                }
            }
        }
    }
}

proof fn lemma_rewrite_expanded(
    ls: Seq<Seq<char>>,
    i: int,
    h: Seq<char>,
    d: Seq<char>,
    dt: Seq<Seq<char>>,
    dl: Seq<Seq<char>>,
)
    requires
        0 <= i <= ls.len(),
        forall|k: int| 0 <= k < ls.len() ==> !(#[trigger] ls[k]).contains('\n'),
        d.contains('\n'),
        block_lines(dt),
        block_lines(dl),
    ensures
        rewrite_from(expand_last(rewrite_from(ls, i, h, d), d, dt, dl), 0, h, d) == rewrite_from(ls, i, h, d),
    decreases ls.len() - i,
{
    let out = rewrite_from(ls, i, h, d);
    if i == ls.len() {
        assert(out =~= Seq::<Seq<char>>::empty());
        assert(expand_last(out, d, dt, dl) =~= Seq::<Seq<char>>::empty());
    } else {
        assert(ls[i] != d) by {
            if ls[i] == d {
                assert(!ls[i].contains('\n'));
            }
        }
        if trim(ls[i]) == h {
            lemma_resume_bounds(ls, i + 1);
            let r = resume_after_header(ls, i + 1);
            let rest = rewrite_from(ls, r, h, d);
            lemma_rewrite_expanded(ls, r, h, d, dt, dl);
            let z = expand_last(rest, d, dt, dl);
            assert(out == seq![ls[i], d] + rest);
            let od = out.drop_first();
            assert(od =~= seq![d] + rest);
            let bl = if rest.len() == 0 {
                dl
            } else {
                dt
            };
            let x = expand_last(out, d, dt, dl);
            assert(out[0] == ls[i]);
            assert(x == seq![ls[i]] + expand_last(od, d, dt, dl));
            assert(od[0] == d);
            assert(od.drop_first() =~= rest);
            assert(expand_last(od, d, dt, dl) == bl + expand_last(od.drop_first(), d, dt, dl));
            assert(x =~= seq![ls[i]] + (bl + z));
            // The second pass meets the header, then the whole block.
            assert(x[0] == ls[i]);
            assert(x[1] == bl[0]);
            assert(!is_blank(x[1])) by {
                assert(trim(bl[0]).len() >= mermaid_start().len());
            }
            assert(skip_blank(x, 1) == 1);
            assert forall|q: int| 0 <= q < bl.len() implies x[q + 1] == bl[q] by {}
            lemma_block_spans(x, bl, 2);
            assert(resume_after_header(x, 1) == bl.len() + 1);
            assert(x.skip(bl.len() as int + 1) =~= z);
            lemma_rewrite_shift(x, z, bl.len() as int + 1, 0, h, d);
            assert(rewrite_from(x, 0, h, d) == seq![x[0], d] + rewrite_from(x, resume_after_header(x, 1), h, d));
        } else {
            let rest = rewrite_from(ls, i + 1, h, d);
            lemma_rewrite_expanded(ls, i + 1, h, d, dt, dl);
            let z = expand_last(rest, d, dt, dl);
            assert(out == seq![ls[i]] + rest);
            assert(out.drop_first() =~= rest);
            let x = expand_last(out, d, dt, dl);
            assert(out[0] == ls[i]);
            assert(x == seq![ls[i]] + expand_last(out.drop_first(), d, dt, dl));
            assert(x =~= seq![ls[i]] + z);
            assert(x.skip(1) =~= z);
            lemma_rewrite_shift(x, z, 1, 0, h, d);
            assert(rewrite_from(x, 0, h, d) == seq![x[0]] + rewrite_from(x, 1, h, d));
        }
    }
}

/// Replacing a section's diagram a second time with the same Mermaid block
/// (one that does not end with a line feed) gives back the same document,
/// unless the first result has a line other than its last, and not part of
/// the block, that ends with a carriage return, or has more than one line
/// and ends with an empty line (which the second pass, splitting the text
/// into lines, drops).
pub proof fn lemma_replace_twice(content: Seq<char>, section: Seq<char>, d: Seq<char>)
    requires
        is_mermaid_block(d),
        ({
            let out = rewrite_from(lines(content), 0, section_header(section), d);
            &&& forall|k: int|
                0 <= k < out.len() - 1 ==> (#[trigger] out[k]) == d || !(out[k].len() > 0 && out[k].last() == '\r')
            &&& out.len() > 1 ==> out.last().len() > 0
        }),
    ensures
        replaced(replaced(content, section, d), section, d) == replaced(content, section, d),
{
    let ls = lines(content);
    let h = section_header(section);
    let out = rewrite_from(ls, 0, h, d);
    let dt = lines(d.push('\n'));
    let dl = lines(d);
    lemma_lines_have_no_newline(content);
    lemma_rewrite_items(ls, 0, h, d);
    lemma_block_has_newline(d);
    lemma_terminated_block(d);
    lemma_rewrite_expanded(ls, 0, h, d, dt, dl);
    if out.len() == 0 {
        assert(join_lines(out) =~= Seq::<char>::empty());
        assert(lines(join_lines(out)) =~= Seq::<Seq<char>>::empty());
        assert(expand_last(out, d, dt, dl) =~= Seq::<Seq<char>>::empty());
    } else if out.len() == 1 && out[0].len() == 0 {
        assert(join_lines(out) == out[0]);
        assert(lines(join_lines(out)) =~= Seq::<Seq<char>>::empty());
        assert(rewrite_from(Seq::<Seq<char>>::empty(), 0, h, d) =~= Seq::<Seq<char>>::empty());
        assert(join_lines(Seq::<Seq<char>>::empty()) =~= Seq::<char>::empty());
        assert(out[0] =~= Seq::<char>::empty());
    } else {
        assert forall|k: int| 0 <= k < out.len() - 1 implies line_like(#[trigger] out[k], d) by {}
        assert(out.last() == out[out.len() - 1]);
        lemma_join_lines(out, d);
    }
}

} // verus!
