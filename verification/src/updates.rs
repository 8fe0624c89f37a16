//! Planning and applying the rewrite of the documents whose diagrams were
//! regenerated.
use vstd::prelude::*;
use crate::markdown::{replace_section_diagram, replaced};
use crate::diagrams::{
    diagram_key, keys_distinct, lemma_merge_keys_unchanged, lemma_one_diagram_per_section, merge_keys,
    section_entries, section_key, section_keys,
};
use crate::model::Element;
use crate::reports::distinct;
use crate::text::{chars_of, copy_range, occurs_at, string_of};

verus! {

/// `str::split` for a non-empty separator, continuing a part that already
/// holds `cur`.
pub open spec fn split_from(s: Seq<char>, sep: Seq<char>, cur: Seq<char>) -> Seq<Seq<char>>
    decreases s.len(),
{
    if s.len() == 0 {
        seq![cur]
    } else if sep.len() > 0 && sep.is_prefix_of(s) {
        seq![cur] + split_from(s.skip(sep.len() as int), sep, seq![])
    } else {
        split_from(s.drop_first(), sep, cur.push(s[0]))
    }
}

/// The parts of `s` between the non-overlapping occurrences of `sep`
/// (`str::split`).
pub open spec fn split_parts(s: Seq<char>, sep: Seq<char>) -> Seq<Seq<char>> {
    split_from(s, sep, seq![])
}

/// The separator between document and section in a diagram key.
pub open spec fn key_separator() -> Seq<char> {
    seq![':', ':']
}

/// The (document, section) a diagram key names: present when splitting the
/// key at `"::"` gives exactly two parts.
pub open spec fn key_parts(key: Seq<char>) -> Option<(Seq<char>, Seq<char>)> {
    let parts = split_parts(key, key_separator());
    if parts.len() == 2 {
        Some((parts[0], parts[1]))
    } else {
        None
    }
}

/// Splits a diagram key `"{document}::{section}"` into its document and
/// section; `None` when the key does not split into exactly two parts.
pub fn split_section_key(key: &str) -> (r: Option<(String, String)>)
    ensures
        match key_parts(key@) {
            Some((f, s)) => r matches Some((rf, rs)) && rf@ == f && rs@ == s,
            None => r is None,
        },
{
    let v = chars_of(key);
    let mut sep: Vec<char> = Vec::new();
    sep.push(':');
    sep.push(':');
    assert(sep@ =~= key_separator());
    let n = v.len();
    let mut parts: Vec<Vec<char>> = Vec::new();
    let mut start: usize = 0;
    let mut i: usize = 0;
    assert(v@.skip(0) =~= v@);
    assert(v@.subrange(0, 0) =~= Seq::<char>::empty());
    while i < n
        invariant
            start <= i <= n,
            n == v@.len(),
            v@ == key@,
            sep@ == key_separator(),
            split_parts(key@, key_separator()) == parts@.map_values(|p: Vec<char>| p@) + split_from(
                v@.skip(i as int),
                key_separator(),
                v@.subrange(start as int, i as int),
            ),
        decreases n - i,
    {
        let ghost rest = v@.skip(i as int);
        let ghost cur = v@.subrange(start as int, i as int);
        if occurs_at(&v, i, &sep) {
            let part = copy_range(&v, start, i);
            let ghost prev = parts@;
            parts.push(part);
            assert(parts@.map_values(|p: Vec<char>| p@) =~= prev.map_values(|p: Vec<char>| p@).push(cur));
            assert(rest.skip(2) =~= v@.skip(i + 2));
            assert(v@.subrange(i + 2, i + 2) =~= Seq::<char>::empty());
            assert(seq![cur] + split_from(v@.skip(i + 2), key_separator(), seq![]) == split_from(
                rest,
                key_separator(),
                cur,
            ));
            assert(prev.map_values(|p: Vec<char>| p@) + split_from(rest, key_separator(), cur) =~= parts@.map_values(
                |p: Vec<char>| p@,
            ) + split_from(v@.skip(i + 2), key_separator(), seq![]));
            i = i + 2;
            start = i;
        } else {
            assert(rest.drop_first() =~= v@.skip(i + 1));
            assert(cur.push(v@[i as int]) =~= v@.subrange(start as int, i + 1));
            i = i + 1;
        }
    }
    let ghost cur = v@.subrange(start as int, n as int);
    assert(v@.skip(n as int) =~= Seq::<char>::empty());
    let last = copy_range(&v, start, n);
    let ghost prev = parts@;
    parts.push(last);
    assert(parts@.map_values(|p: Vec<char>| p@) =~= prev.map_values(|p: Vec<char>| p@) + seq![cur]);
    if parts.len() == 2 {
        let f = string_of(&parts[0]);
        let s = string_of(&parts[1]);
        assert(parts@.map_values(|p: Vec<char>| p@)[0] == parts@[0]@);
        assert(parts@.map_values(|p: Vec<char>| p@)[1] == parts@[1]@);
        Some((f, s))
    } else {
        None
    }
}

/// Whether `s` holds two consecutive colons.
pub open spec fn has_double_colon(s: Seq<char>) -> bool {
    exists|i: int| 0 <= i < s.len() - 1 && #[trigger] s[i] == ':' && s[i + 1] == ':'
}

proof fn lemma_split_no_separator(t: Seq<char>, cur: Seq<char>)
    requires
        !has_double_colon(t),
    ensures
        split_from(t, key_separator(), cur) == seq![cur + t],
    decreases t.len(),
{
    if t.len() == 0 {
        assert(cur + t =~= cur);
    } else {
        assert(!key_separator().is_prefix_of(t)) by {
            if key_separator().is_prefix_of(t) {
                assert(t[0] == key_separator()[0] && t[1] == key_separator()[1]);
            }
        }
        assert(!has_double_colon(t.drop_first())) by {
            if has_double_colon(t.drop_first()) {
                let i = choose|i: int|
                    0 <= i < t.drop_first().len() - 1 && #[trigger] t.drop_first()[i] == ':' && t.drop_first()[i + 1] == ':';
                assert(t[i + 1] == ':' && t[i + 2] == ':');
            }
        }
        lemma_split_no_separator(t.drop_first(), cur.push(t[0]));
        assert(cur.push(t[0]) + t.drop_first() =~= cur + t);
    }
}

proof fn lemma_split_first_part(f: Seq<char>, t: Seq<char>, cur: Seq<char>)
    requires
        !has_double_colon(f),
        !(f.len() > 0 && f.last() == ':'),
    ensures
        split_from(f + key_separator() + t, key_separator(), cur) == seq![cur + f] + split_from(
            t,
            key_separator(),
            seq![],
        ),
    decreases f.len(),
{
    let s = f + key_separator() + t;
    if f.len() == 0 {
        assert(key_separator().is_prefix_of(s)) by {
            assert(s.subrange(0, 2) =~= key_separator());
        }
        assert(s.skip(2) =~= t);
        assert(cur + f =~= cur);
    } else {
        assert(!key_separator().is_prefix_of(s)) by {
            if key_separator().is_prefix_of(s) {
                assert(s[0] == ':' && s[1] == ':');
                if f.len() == 1 {
                    assert(f.last() == s[0]);
                } else {
                    assert(f[0] == s[0] && f[1] == s[1]);
                }
            }
        }
        let g = f.drop_first();
        assert(!has_double_colon(g)) by {
            if has_double_colon(g) {
                let i = choose|i: int| 0 <= i < g.len() - 1 && #[trigger] g[i] == ':' && g[i + 1] == ':';
                assert(f[i + 1] == ':' && f[i + 2] == ':');
            }
        }
        assert(s.drop_first() =~= g + key_separator() + t);
        lemma_split_first_part(g, t, cur.push(f[0]));
        assert(cur.push(f[0]) + g =~= cur + f);
    }
}

/// A diagram key splits back into its document and section, when the
/// document holds no two consecutive colons and does not end with one, and
/// the section holds no two consecutive colons.
pub proof fn lemma_diagram_key_round_trip(file: Seq<char>, section: Seq<char>)
    requires
        !has_double_colon(file),
        !(file.len() > 0 && file.last() == ':'),
        !has_double_colon(section),
    ensures
        key_parts(diagram_key((file, section))) == Some((file, section)),
{
    reveal_strlit("::");
    assert("::"@ =~= key_separator());
    lemma_split_first_part(file, section, seq![]);
    lemma_split_no_separator(section, seq![]);
    assert(seq![] + file =~= file);
    assert(seq![] + section =~= section);
    let parts = split_parts(diagram_key((file, section)), key_separator());
    assert(parts =~= seq![file, section]);
}

/// Whether a (document, section) pair can be read back from its diagram
/// key: the document holds no two consecutive colons and does not end with
/// one, and the section holds no two consecutive colons.
pub open spec fn key_splits(k: (Seq<char>, Seq<char>)) -> bool {
    &&& !has_double_colon(k.0)
    &&& !(k.0.len() > 0 && k.0.last() == ':')
    &&& !has_double_colon(k.1)
}

/// When every element's (document, section) pair can be read back from its
/// key, the diagrams of different sections get different keys.
pub proof fn lemma_diagram_keys_distinct(es: Seq<Element>)
    requires
        forall|j: int| 0 <= j < es.len() ==> key_splits(#[trigger] section_key(es[j])),
    ensures
        forall|a: int, b: int|
            0 <= a < section_keys(es).len() && 0 <= b < section_keys(es).len() && a != b ==> diagram_key(
                #[trigger] section_keys(es)[a],
            ) != diagram_key(#[trigger] section_keys(es)[b]),
{
    lemma_one_diagram_per_section(es);
    let ks = section_keys(es);
    assert forall|a: int, b: int|
        0 <= a < ks.len() && 0 <= b < ks.len() && a != b implies diagram_key(#[trigger] ks[a]) != diagram_key(
            #[trigger] ks[b],
        ) by {
        let ja = choose|j: int| 0 <= j < es.len() && section_key(es[j]) == ks[a];
        let jb = choose|j: int| 0 <= j < es.len() && section_key(es[j]) == ks[b];
        assert(key_splits(section_key(es[ja])));
        assert(key_splits(section_key(es[jb])));
        lemma_diagram_key_round_trip(ks[a].0, ks[a].1);
        lemma_diagram_key_round_trip(ks[b].0, ks[b].1);
        assert(ks[a] == (ks[a].0, ks[a].1));
        assert(ks[b] == (ks[b].0, ks[b].1));
    }
}

/// When every element's (document, section) pair can be read back from its
/// key, no two sections share a key, so every section keeps its own entry.
pub proof fn lemma_one_entry_per_section(
    es: Seq<Element>,
    direction: Seq<char>,
    blob: Option<(Seq<char>, Seq<char>)>,
)
    requires
        forall|j: int| 0 <= j < es.len() ==> key_splits(#[trigger] section_key(es[j])),
    ensures
        merge_keys(section_entries(es, direction, blob)) == section_entries(es, direction, blob),
{
    lemma_diagram_keys_distinct(es);
    let ks = section_keys(es);
    let s = section_entries(es, direction, blob);
    assert forall|a: int, b: int| 0 <= a < s.len() && 0 <= b < s.len() && a != b implies #[trigger] s[a].0
        != #[trigger] s[b].0 by {
        assert(s[a].0 == diagram_key(ks[a]) && s[b].0 == diagram_key(ks[b]));
    }
    assert(keys_distinct(s));
    lemma_merge_keys_unchanged(s);
}

/// `content` with the diagram of each (section, diagram) pair of `updates`
/// put in, in order.
pub open spec fn with_diagrams(content: Seq<char>, updates: Seq<(Seq<char>, Seq<char>)>) -> Seq<char>
    decreases updates.len(),
{
    if updates.len() == 0 {
        content
    } else {
        replaced(with_diagrams(content, updates.drop_last()), updates.last().0, updates.last().1)
    }
}

/// The views of a list of (section, diagram) pairs.
pub open spec fn pair_views(v: Seq<(String, String)>) -> Seq<(Seq<char>, Seq<char>)> {
    v.map_values(|p: (String, String)| (p.0@, p.1@))
}

/// Replaces, in order, the diagram of each section of `updates` in
/// `content`.
pub fn apply_section_diagrams(content: &str, updates: &Vec<(String, String)>) -> (r: String)
    ensures
        r@ == with_diagrams(content@, pair_views(updates@)),
{
    let mut text = content.to_owned();
    let n = updates.len();
    let mut i: usize = 0;
    while i < n
        invariant
            i <= n,
            n == updates@.len(),
            text@ == with_diagrams(content@, pair_views(updates@).take(i as int)),
        decreases n - i,
    {
        assert(pair_views(updates@).take(i + 1).drop_last() =~= pair_views(updates@).take(i as int));
        text = replace_section_diagram(text.as_str(), updates[i].0.as_str(), updates[i].1.as_str());
        i = i + 1;
    }
    assert(pair_views(updates@).take(n as int) =~= pair_views(updates@));
    text
}


/// The (document, section, diagram) of each entry of `entries` whose key
/// names a document and a section, in order.
pub open spec fn located(entries: Seq<(Seq<char>, Seq<char>)>) -> Seq<(Seq<char>, Seq<char>, Seq<char>)>
    decreases entries.len(),
{
    if entries.len() == 0 {
        seq![]
    } else {
        let m = located(entries.drop_last());
        match key_parts(entries.last().0) {
            Some((f, sec)) => m.push((f, sec, entries.last().1)),
            None => m,
        }
    }
}

/// The documents of located entries, one per entry.
pub open spec fn located_files(ls: Seq<(Seq<char>, Seq<char>, Seq<char>)>) -> Seq<Seq<char>> {
    ls.map_values(|l: (Seq<char>, Seq<char>, Seq<char>)| l.0)
}

/// The (section, diagram) pairs of the located entries of document `f`, in
/// order.
pub open spec fn updates_for(ls: Seq<(Seq<char>, Seq<char>, Seq<char>)>, f: Seq<char>) -> Seq<(Seq<char>, Seq<char>)>
    decreases ls.len(),
{
    if ls.len() == 0 {
        seq![]
    } else {
        let m = updates_for(ls.drop_last(), f);
        if ls.last().0 == f {
            m.push((ls.last().1, ls.last().2))
        } else {
            m
        }
    }
}

/// The views of located entries.
pub open spec fn triple_views(v: Seq<(String, String, String)>) -> Seq<(Seq<char>, Seq<char>, Seq<char>)> {
    v.map_values(|t: (String, String, String)| (t.0@, t.1@, t.2@))
}

/// Groups the diagrams `diagrams` (pairs of key and diagram) by document:
/// one entry per document named by a key, in order of first appearance,
/// with the (section, diagram) pairs of that document in order. Entries
/// whose key does not split into document and section are left out.
pub fn plan_diagram_updates(diagrams: &Vec<(String, String)>) -> (r: Vec<(String, Vec<(String, String)>)>)
    ensures
        ({
            let ls = located(pair_views(diagrams@));
            let files = distinct(located_files(ls));
            &&& r@.len() == files.len()
            &&& forall|i: int|
                0 <= i < files.len() ==> (#[trigger] r@[i]).0@ == files[i] && pair_views(r@[i].1@)
                    == updates_for(ls, files[i])
        }),
{
    let ghost ents = pair_views(diagrams@);
    let n = diagrams.len();
    let mut ls: Vec<(String, String, String)> = Vec::new();
    let mut i: usize = 0;
    while i < n
        invariant
            i <= n,
            n == diagrams@.len(),
            ents == pair_views(diagrams@),
            triple_views(ls@) == located(ents.take(i as int)),
        decreases n - i,
    {
        assert(ents.take(i + 1).drop_last() =~= ents.take(i as int));
        assert(ents.take(i + 1).last() == (diagrams@[i as int].0@, diagrams@[i as int].1@));
        match split_section_key(diagrams[i].0.as_str()) {
            Some((f, sec)) => {
                let ghost prev = ls@;
                ls.push((f, sec, diagrams[i].1.clone()));
                assert(triple_views(ls@) =~= triple_views(prev).push(
                    (ls@[prev.len() as int].0@, ls@[prev.len() as int].1@, diagrams@[i as int].1@),
                ));
            },
            None => {},
        }
        i = i + 1;
    }
    assert(ents.take(n as int) =~= ents);
    let ghost lv = triple_views(ls@);
    let ghost ks = located_files(lv);
    let m = ls.len();
    // The first entry of each document, in order.
    let mut reps: Vec<usize> = Vec::new();
    let mut j: usize = 0;
    while j < m
        invariant
            j <= m,
            m == ls@.len(),
            lv == triple_views(ls@),
            ks == located_files(lv),
            reps@.len() == distinct(ks.take(j as int)).len(),
            forall|g: int|
                0 <= g < reps@.len() ==> #[trigger] reps@[g] < j && ls@[reps@[g] as int].0@ == distinct(
                    ks.take(j as int),
                )[g],
        decreases m - j,
    {
        let ghost d = distinct(ks.take(j as int));
        assert(ks.take(j + 1).drop_last() =~= ks.take(j as int));
        assert(ks.take(j + 1).last() == ls@[j as int].0@);
        let k = reps.len();
        let mut g: usize = 0;
        let mut found = false;
        while g < k
            invariant
                g <= k,
                k == reps@.len(),
                j < m,
                m == ls@.len(),
                d == distinct(ks.take(j as int)),
                k == d.len(),
                forall|w: int| 0 <= w < reps@.len() ==> #[trigger] reps@[w] < j && ls@[reps@[w] as int].0@ == d[w],
                found ==> d.contains(ls@[j as int].0@),
                !found ==> forall|w: int| 0 <= w < g ==> d[w] != ls@[j as int].0@,
            decreases k - g,
        {
            if !found && ls[reps[g]].0 == ls[j].0 {
                found = true;
                assert(d[g as int] == ls@[j as int].0@);
            }
            g = g + 1;
        }
        if !found {
            reps.push(j);
            assert(distinct(ks.take(j + 1)) == d.push(ls@[j as int].0@));
        } else {
            assert(distinct(ks.take(j + 1)) == d);
        }
        j = j + 1;
    }
    assert(ks.take(m as int) =~= ks);
    let nf = reps.len();
    let mut out: Vec<(String, Vec<(String, String)>)> = Vec::new();
    let mut g: usize = 0;
    while g < nf
        invariant
            g <= nf,
            nf == reps@.len(),
            m == ls@.len(),
            lv == triple_views(ls@),
            ks == located_files(lv),
            nf == distinct(ks).len(),
            forall|w: int| 0 <= w < nf ==> #[trigger] reps@[w] < m && ls@[reps@[w] as int].0@ == distinct(ks)[w],
            out@.len() == g,
            forall|w: int|
                0 <= w < g ==> (#[trigger] out@[w]).0@ == distinct(ks)[w] && pair_views(out@[w].1@)
                    == updates_for(lv, distinct(ks)[w]),
        decreases nf - g,
    {
        let file = &ls[reps[g]].0;
        let mut ups: Vec<(String, String)> = Vec::new();
        let mut q: usize = 0;
        while q < m
            invariant
                q <= m,
                m == ls@.len(),
                lv == triple_views(ls@),
                pair_views(ups@) == updates_for(lv.take(q as int), file@),
            decreases m - q,
        {
            assert(lv.take(q + 1).drop_last() =~= lv.take(q as int));
            assert(lv.take(q + 1).last() == (ls@[q as int].0@, ls@[q as int].1@, ls@[q as int].2@));
            if ls[q].0 == *file {
                let ghost prev = ups@;
                ups.push((ls[q].1.clone(), ls[q].2.clone()));
                assert(pair_views(ups@) =~= pair_views(prev).push((ls@[q as int].1@, ls@[q as int].2@)));
            }
            q = q + 1;
        }
        assert(lv.take(m as int) =~= lv);
        out.push((file.clone(), ups));
        g = g + 1;
    }
    out
}

} // verus!
