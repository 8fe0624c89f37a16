//! Character-level text operations on `str`, specified over `Seq<char>`.
use vstd::prelude::*;

verus! {

/// `str::replace` for a non-empty pattern: the non-overlapping occurrences of
/// `from`, found from left to right, are each replaced by `to`.
pub open spec fn replace_all(s: Seq<char>, from: Seq<char>, to: Seq<char>) -> Seq<char>
    decreases s.len(),
{
    if from.len() == 0 || s.len() == 0 {
        s
    } else if from.is_prefix_of(s) {
        to + replace_all(s.skip(from.len() as int), from, to)
    } else {
        seq![s[0]] + replace_all(s.drop_first(), from, to)
    }
}

/// A replacement that introduces no `c` into a text without `c` leaves
/// the text without `c`.
pub proof fn lemma_replace_keeps_absent(s: Seq<char>, from: Seq<char>, to: Seq<char>, c: char)
    requires
        !s.contains(c),
        !to.contains(c),
    ensures
        !replace_all(s, from, to).contains(c),
    decreases s.len(),
{
    if from.len() == 0 || s.len() == 0 {
    } else if from.is_prefix_of(s) {
        let rest = s.skip(from.len() as int);
        assert forall|i: int| 0 <= i < rest.len() implies rest[i] != c by {
            assert(rest[i] == s[i + from.len()]);
        }
        lemma_replace_keeps_absent(rest, from, to, c);
        let r = replace_all(rest, from, to);
        assert forall|i: int| 0 <= i < (to + r).len() implies (to + r)[i] != c by {
            if i >= to.len() {
                assert((to + r)[i] == r[i - to.len()]);
            }
        }
    } else {
        let rest = s.drop_first();
        assert forall|i: int| 0 <= i < rest.len() implies rest[i] != c by {
            assert(rest[i] == s[i + 1]);
        }
        lemma_replace_keeps_absent(rest, from, to, c);
        let r = replace_all(rest, from, to);
        assert(s[0] != c);
        assert forall|i: int| 0 <= i < (seq![s[0]] + r).len() implies (seq![s[0]] + r)[i] != c by {
            if i >= 1 {
                assert((seq![s[0]] + r)[i] == r[i - 1]);
            }
        }
    }
}

/// Replacing every `c` by a text without `c` leaves no `c`.
pub proof fn lemma_replace_removes(s: Seq<char>, c: char, to: Seq<char>)
    requires
        !to.contains(c),
    ensures
        !replace_all(s, seq![c], to).contains(c),
    decreases s.len(),
{
    if s.len() == 0 {
    } else if seq![c].is_prefix_of(s) {
        let rest = s.skip(1);
        lemma_replace_removes(rest, c, to);
        let r = replace_all(rest, seq![c], to);
        assert forall|i: int| 0 <= i < (to + r).len() implies (to + r)[i] != c by {
            if i >= to.len() {
                assert((to + r)[i] == r[i - to.len()]);
            }
        }
    } else {
        assert(s[0] != c) by {
            if s[0] == c {
                assert(seq![c] =~= s.subrange(0, 1));
            }
        }
        let rest = s.drop_first();
        lemma_replace_removes(rest, c, to);
        let r = replace_all(rest, seq![c], to);
        assert forall|i: int| 0 <= i < (seq![s[0]] + r).len() implies (seq![s[0]] + r)[i] != c by {
            if i >= 1 {
                assert((seq![s[0]] + r)[i] == r[i - 1]);
            }
        }
    }
}

/// Replacing a character: the first character is replaced or kept, and the
/// rest replaced.
pub proof fn lemma_replace_cons(x: char, t: Seq<char>, c: char, to: Seq<char>)
    ensures
        replace_all(seq![x] + t, seq![c], to) == (if x == c {
            to
        } else {
            seq![x]
        }) + replace_all(t, seq![c], to),
{
    let s = seq![x] + t;
    assert(s[0] == x);
    assert(s.skip(1) =~= t);
    assert(s.drop_first() =~= t);
    if x == c {
        assert(seq![c].is_prefix_of(s));
    } else {
        assert(!seq![c].is_prefix_of(s)) by {
            if seq![c].is_prefix_of(s) {
                assert(s[0] == seq![c][0]);
            }
        }
    }
}

/// Replacing a character distributes over concatenation.
pub proof fn lemma_replace_app(a: Seq<char>, t: Seq<char>, c: char, to: Seq<char>)
    ensures
        replace_all(a + t, seq![c], to) == replace_all(a, seq![c], to) + replace_all(t, seq![c], to),
    decreases a.len(),
{
    if a.len() == 0 {
        assert(a + t =~= t);
        assert(replace_all(a, seq![c], to) =~= Seq::<char>::empty());
        assert(Seq::<char>::empty() + replace_all(t, seq![c], to) =~= replace_all(t, seq![c], to));
    } else {
        let r = a.drop_first();
        assert(a =~= seq![a[0]] + r);
        assert(a + t =~= seq![a[0]] + (r + t));
        lemma_replace_cons(a[0], r + t, c, to);
        lemma_replace_cons(a[0], r, c, to);
        lemma_replace_app(r, t, c, to);
        let h = if a[0] == c {
            to
        } else {
            seq![a[0]]
        };
        assert(h + (replace_all(r, seq![c], to) + replace_all(t, seq![c], to)) =~= (h + replace_all(
            r,
            seq![c],
            to,
        )) + replace_all(t, seq![c], to));
    }
}

/// Replacing a character the text does not hold changes nothing.
pub proof fn lemma_replace_absent(x: Seq<char>, c: char, to: Seq<char>)
    requires
        !x.contains(c),
    ensures
        replace_all(x, seq![c], to) == x,
    decreases x.len(),
{
    if x.len() > 0 {
        let r = x.drop_first();
        assert(x =~= seq![x[0]] + r);
        assert(x[0] != c);
        assert(!r.contains(c)) by {
            if r.contains(c) {
                let i = choose|i: int| 0 <= i < r.len() && r[i] == c;
                assert(x[i + 1] == c);
            }
        }
        lemma_replace_cons(x[0], r, c, to);
        lemma_replace_absent(r, c, to);
    }
}

/// Whether `s` holds no three consecutive backticks.
pub open spec fn no_triple_backtick(s: Seq<char>) -> bool {
    forall|i: int| 0 <= i < s.len() - 2 ==> !(#[trigger] s[i] == '`' && s[i + 1] == '`' && s[i + 2] == '`')
}

/// Replacing each triple backtick by three tildes leaves no triple
/// backtick; the result starts with a backtick (two backticks) only where
/// the text does without starting with a triple backtick.
pub proof fn lemma_replace_fences(x: Seq<char>)
    ensures
        no_triple_backtick(replace_all(x, seq!['`', '`', '`'], seq!['~', '~', '~'])),
        ({
            let r = replace_all(x, seq!['`', '`', '`'], seq!['~', '~', '~']);
            &&& (r.len() >= 1 && r[0] == '`') ==> (x.len() >= 1 && x[0] == '`' && !seq!['`', '`', '`'].is_prefix_of(x))
            &&& (r.len() >= 2 && r[0] == '`' && r[1] == '`') ==> (x.len() >= 2 && x[0] == '`' && x[1] == '`'
                && !seq!['`', '`', '`'].is_prefix_of(x))
        }),
    decreases x.len(),
{
    let f = seq!['`', '`', '`'];
    let t = seq!['~', '~', '~'];
    let r = replace_all(x, f, t);
    if x.len() == 0 {
    } else if f.is_prefix_of(x) {
        let x2 = x.skip(3);
        lemma_replace_fences(x2);
        let r2 = replace_all(x2, f, t);
        assert(r == t + r2);
        assert forall|i: int| 0 <= i < r.len() - 2 implies !(#[trigger] r[i] == '`' && r[i + 1] == '`' && r[i + 2]
            == '`') by {
            if i >= 3 {
                assert(r[i] == r2[i - 3] && r[i + 1] == r2[i - 2] && r[i + 2] == r2[i - 1]);
            } else {
                assert(r[i] == '~');
            }
        }
    } else {
        let x2 = x.drop_first();
        lemma_replace_fences(x2);
        let r2 = replace_all(x2, f, t);
        assert(r == seq![x[0]] + r2);
        assert forall|i: int| 0 <= i < r.len() - 2 implies !(#[trigger] r[i] == '`' && r[i + 1] == '`' && r[i + 2]
            == '`') by {
            if i >= 1 {
                assert(r[i] == r2[i - 1] && r[i + 1] == r2[i] && r[i + 2] == r2[i + 1]);
            } else if r[0] == '`' && r[1] == '`' && r[2] == '`' {
                assert(r2[0] == '`' && r2[1] == '`');
                assert(x[1] == '`' && x[2] == '`');
                assert(f =~= x.subrange(0, 3));
            }
        }
        if r.len() >= 2 && r[0] == '`' && r[1] == '`' {
            assert(r2[0] == '`');
            assert(x2[0] == '`');
        }
    }
}

/// A text with no triple backtick is left as it is by replacing triple
/// backticks.
pub proof fn lemma_no_fence_unchanged(x: Seq<char>)
    requires
        no_triple_backtick(x),
    ensures
        replace_all(x, seq!['`', '`', '`'], seq!['~', '~', '~']) == x,
    decreases x.len(),
{
    let f = seq!['`', '`', '`'];
    if x.len() > 0 {
        if f.is_prefix_of(x) {
            assert(x[0] == f[0] && x[1] == f[1] && x[2] == f[2]);
            assert(!(x[0] == '`' && x[1] == '`' && x[2] == '`'));
        }
        let r = x.drop_first();
        assert forall|i: int| 0 <= i < r.len() - 2 implies !(#[trigger] r[i] == '`' && r[i + 1] == '`' && r[i + 2]
            == '`') by {
            assert(r[i] == x[i + 1] && r[i + 1] == x[i + 2] && r[i + 2] == x[i + 3]);
            assert(!(x[i + 1] == '`' && x[i + 2] == '`' && x[i + 3] == '`'));
        }
        lemma_no_fence_unchanged(r);
        assert(x =~= seq![x[0]] + r);
    }
}

/// `String::push`: appends one character to the string.
#[verifier::external_body]
pub(crate) fn push_char(s: &mut String, c: char)
    ensures
        final(s)@ == old(s)@.push(c),
{
    s.push(c)
}

/// The characters of `s`, in order.
pub fn chars_of(s: &str) -> (v: Vec<char>)
    ensures
        v@ == s@,
{
    let mut v: Vec<char> = Vec::new();
    for c in it: s.chars()
        invariant
            v@ == it.seq().take(it.index() as int),
            it.seq() == s@,
    {
        v.push(c);
    }
    v
}

/// Appends the characters `v` to `s`.
pub fn push_chars(s: &mut String, v: &[char])
    ensures
        final(s)@ == old(s)@ + v@,
{
    let n = v.len();
    let mut i: usize = 0;
    let ghost s0 = s@;
    while i < n
        invariant
            i <= n,
            n == v@.len(),
            s@ == s0 + v@.take(i as int),
        decreases n - i,
    {
        push_char(s, v[i]);
        i = i + 1;
        assert(v@.take(i as int) =~= v@.take((i - 1) as int).push(v@[i - 1]));
    }
    assert(v@.take(n as int) =~= v@);
}

/// The string made of the characters `v`.
pub fn string_of(v: &[char]) -> (s: String)
    ensures
        s@ == v@,
{
    let mut s = String::new();
    let n = v.len();
    let mut i: usize = 0;
    while i < n
        invariant
            i <= n,
            n == v@.len(),
            s@ == v@.take(i as int),
        decreases n - i,
    {
        push_char(&mut s, v[i]);
        i = i + 1;
        assert(v@.take(i as int) =~= v@.take((i - 1) as int).push(v@[i - 1]));
    }
    assert(v@.take(n as int) =~= v@);
    s
}

/// Whether `p` occurs in `v` at position `i`.
pub fn occurs_at(v: &[char], i: usize, p: &[char]) -> (r: bool)
    requires
        i <= v@.len(),
    ensures
        r == p@.is_prefix_of(v@.skip(i as int)),
{
    let n = v.len();
    let m = p.len();
    if m > n - i {
        return false;
    }
    let mut k: usize = 0;
    while k < m
        invariant
            k <= m,
            m <= n - i,
            n == v@.len(),
            m == p@.len(),
            forall|j: int| 0 <= j < k ==> p@[j] == v@[i + j],
        decreases m - k,
    {
        if p[k] != v[i + k] {
            assert(p@[k as int] != v@.skip(i as int).subrange(0, m as int)[k as int]);
            return false;
        }
        k = k + 1;
    }
    assert(p@ =~= v@.skip(i as int).subrange(0, m as int));
    true
}

/// `s.replace(from, to)` for a non-empty `from`.
pub fn replace_str(s: &str, from: &str, to: &str) -> (r: String)
    requires
        from@.len() > 0,
    ensures
        r@ == replace_all(s@, from@, to@),
{
    let sv = chars_of(s);
    let fv = chars_of(from);
    let n = sv.len();
    let m = fv.len();
    let mut out = String::new();
    let mut i: usize = 0;
    assert(s@.skip(0) =~= s@);
    while i < n
        invariant
            i <= n,
            n == sv@.len(),
            m == fv@.len(),
            m > 0,
            sv@ == s@,
            fv@ == from@,
            replace_all(s@, from@, to@) == out@ + replace_all(s@.skip(i as int), from@, to@),
        decreases n - i,
    {
        let ghost rest = s@.skip(i as int);
        if occurs_at(&sv, i, &fv) {
            out.append(to);
            assert(rest.skip(m as int) =~= s@.skip((i + m) as int));
            i = i + m;
        } else {
            push_char(&mut out, sv[i]);
            assert(rest.drop_first() =~= s@.skip((i + 1) as int));
            i = i + 1;
        }
    }
    assert(s@.skip(n as int).len() == 0);
    out
}


/// `char::is_whitespace`: the characters with the Unicode `White_Space` property.
pub open spec fn is_ws(c: char) -> bool {
    ||| ('\u{9}' <= c && c <= '\u{d}')
    ||| c == ' '
    ||| c == '\u{85}'
    ||| c == '\u{a0}'
    ||| c == '\u{1680}'
    ||| ('\u{2000}' <= c && c <= '\u{200a}')
    ||| c == '\u{2028}'
    ||| c == '\u{2029}'
    ||| c == '\u{202f}'
    ||| c == '\u{205f}'
    ||| c == '\u{3000}'
}

/// `s` without its leading whitespace (`str::trim_start`).
pub open spec fn trim_start(s: Seq<char>) -> Seq<char>
    decreases s.len(),
{
    if s.len() > 0 && is_ws(s[0]) {
        trim_start(s.drop_first())
    } else {
        s
    }
}

/// `s` without its trailing whitespace (`str::trim_end`).
pub open spec fn trim_end(s: Seq<char>) -> Seq<char>
    decreases s.len(),
{
    if s.len() > 0 && is_ws(s.last()) {
        trim_end(s.drop_last())
    } else {
        s
    }
}

/// `str::trim`: `s` without leading and trailing whitespace.
pub open spec fn trim(s: Seq<char>) -> Seq<char> {
    trim_end(trim_start(s))
}

/// Whether `c` is whitespace, as `char::is_whitespace` decides.
pub fn is_whitespace(c: char) -> (r: bool)
    ensures
        r == is_ws(c),
{
    ('\u{9}' <= c && c <= '\u{d}') || c == ' ' || c == '\u{85}' || c == '\u{a0}' || c == '\u{1680}'
        || ('\u{2000}' <= c && c <= '\u{200a}') || c == '\u{2028}' || c == '\u{2029}' || c
        == '\u{202f}' || c == '\u{205f}' || c == '\u{3000}'
}

/// The characters `v[a..b]`.
pub fn copy_range(v: &[char], a: usize, b: usize) -> (r: Vec<char>)
    requires
        a <= b <= v@.len(),
    ensures
        r@ == v@.subrange(a as int, b as int),
{
    let mut r: Vec<char> = Vec::new();
    let mut i = a;
    while i < b
        invariant
            a <= i <= b,
            b <= v@.len(),
            r@ == v@.subrange(a as int, i as int),
        decreases b - i,
    {
        r.push(v[i]);
        i = i + 1;
        assert(r@ =~= v@.subrange(a as int, i as int));
    }
    r
}

/// The characters of `l` without leading and trailing whitespace.
pub fn trim_chars(l: &[char]) -> (t: Vec<char>)
    ensures
        t@ == trim(l@),
{
    let n = l.len();
    let mut a: usize = 0;
    assert(l@.skip(0) =~= l@);
    while a < n && is_whitespace(l[a])
        invariant
            a <= n,
            n == l@.len(),
            trim_start(l@) == trim_start(l@.skip(a as int)),
        decreases n - a,
    {
        assert(l@.skip(a as int).drop_first() =~= l@.skip(a + 1));
        a = a + 1;
    }
    let ghost s = l@.skip(a as int);
    assert(trim_start(s) == s);
    let mut b = n;
    assert(s =~= l@.subrange(a as int, n as int));
    while b > a && is_whitespace(l[b - 1])
        invariant
            a <= b <= n,
            n == l@.len(),
            s == l@.skip(a as int),
            trim_end(s) == trim_end(l@.subrange(a as int, b as int)),
        decreases b - a,
    {
        assert(l@.subrange(a as int, b as int).drop_last() =~= l@.subrange(a as int, b - 1));
        b = b - 1;
    }
    copy_range(l, a, b)
}

/// Whether `p` is a prefix of `v`.
pub fn starts_with(v: &[char], p: &[char]) -> (r: bool)
    ensures
        r == p@.is_prefix_of(v@),
{
    assert(v@.skip(0) =~= v@);
    occurs_at(v, 0, p)
}

/// Whether `a` and `b` hold the same characters.
pub fn same_chars(a: &[char], b: &[char]) -> (r: bool)
    ensures
        r == (a@ == b@),
{
    if a.len() != b.len() {
        return false;
    }
    let r = starts_with(a, b);
    proof {
        if r {
            assert(a@ =~= b@);
        }
    }
    r
}

} // verus!
