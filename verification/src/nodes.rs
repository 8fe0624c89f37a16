//! The node declarations of section diagrams, and when each node is
//! declared exactly once.
use vstd::prelude::*;
use crate::diagrams::{
    element_head, lemma_members_contain, lemma_section_nodes_once, relations_part, section_body,
    section_key, section_members,
};
use crate::model::{Element, LinkType, Relation};

verus! {

/// Whether relation `r` is drawn to the element `id` under node `nid`.
pub open spec fn target_names(r: Relation, id: Seq<char>, nid: Seq<char>) -> bool {
    &&& !r.is_opposite
    &&& r.target.link matches LinkType::Identifier(t)
    &&& t@ == id
    &&& r.target.node.node_id@ == nid
}

/// Whether `e`, or one of its relations, draws the element `id` under node
/// `nid`.
pub open spec fn node_of(e: Element, id: Seq<char>, nid: Seq<char>) -> bool {
    ||| (e.identifier@ == id && e.node.node_id@ == nid)
    ||| exists|j: int| 0 <= j < e.relations@.len() && #[trigger] target_names(e.relations@[j], id, nid)
}

/// Whether some element of `es` draws the element `id` under node `nid`.
pub open spec fn names_node(es: Seq<Element>, id: Seq<char>, nid: Seq<char>) -> bool {
    exists|k: int| 0 <= k < es.len() && #[trigger] node_of(es[k], id, nid)
}

/// The node identifiers of `es` agree with the element identifiers: the
/// elements drawn by `es` get the same node exactly when they have the same
/// identifier (as when node identifiers are an injective hash of element
/// identifiers).
pub open spec fn consistent_nodes(es: Seq<Element>) -> bool {
    forall|id1: Seq<char>, n1: Seq<char>, id2: Seq<char>, n2: Seq<char>|
        #[trigger] names_node(es, id1, n1) && #[trigger] names_node(es, id2, n2) ==> (id1 == id2 <==> n1 == n2)
}

/// Every relation of `es` that is drawn points at an element.
pub open spec fn element_targets(es: Seq<Element>) -> bool {
    forall|k: int, j: int|
        0 <= k < es.len() && 0 <= j < es[k].relations@.len() && !(#[trigger] es[k].relations@[j]).is_opposite
            ==> es[k].relations@[j].target.link is Identifier
}

/// The node a relation declares, given the identifiers already included:
/// none for an opposite relation or an element already drawn.
pub open spec fn relation_decl(r: Relation, inc: Seq<Seq<char>>) -> Seq<Seq<char>> {
    if r.is_opposite {
        seq![]
    } else {
        match r.target.link {
            LinkType::Identifier(id) => if inc.contains(id@) {
                seq![]
            } else {
                seq![r.target.node.node_id@]
            },
            _ => seq![r.target.node.node_id@],
        }
    }
}

/// The nodes the first `n` relations of `e` declare, in order.
pub open spec fn relations_decls(
    reg: Seq<Element>,
    e: Element,
    n: int,
    inc: Seq<Seq<char>>,
    blob: Option<(Seq<char>, Seq<char>)>,
) -> Seq<Seq<char>>
    decreases n,
{
    if n <= 0 {
        seq![]
    } else {
        relations_decls(reg, e, n - 1, inc, blob) + relation_decl(
            e.relations@[n - 1],
            relations_part(reg, e, n - 1, inc, blob).1,
        )
    }
}

/// The nodes element `e` declares: its own unless already drawn, then
/// those of its relations.
pub open spec fn element_decls(
    reg: Seq<Element>,
    e: Element,
    inc: Seq<Seq<char>>,
    blob: Option<(Seq<char>, Seq<char>)>,
) -> Seq<Seq<char>> {
    (if inc.contains(e.identifier@) {
        seq![]
    } else {
        seq![e.node.node_id@]
    }) + relations_decls(reg, e, e.relations@.len() as int, element_head(e, inc, blob).1, blob)
}

/// The nodes declared by the first `n` elements of a section's diagram, in
/// order: for each element, its own node when `element_head` draws it, then
/// the target node of each relation for which `target_node` draws one.
pub open spec fn section_decls(
    reg: Seq<Element>,
    es: Seq<Element>,
    n: int,
    blob: Option<(Seq<char>, Seq<char>)>,
) -> Seq<Seq<char>>
    decreases n,
{
    if n <= 0 {
        seq![]
    } else {
        section_decls(reg, es, n - 1, blob) + element_decls(
            reg,
            es[n - 1],
            section_body(reg, es, n - 1, blob).1,
            blob,
        )
    }
}

/// Each included identifier is paired with the node declared for it.
spec fn paired(es: Seq<Element>, inc: Seq<Seq<char>>, d: Seq<Seq<char>>) -> bool {
    &&& inc.len() == d.len()
    &&& forall|i: int| 0 <= i < inc.len() ==> #[trigger] names_node(es, inc[i], d[i])
}

proof fn lemma_relations_paired(
    reg: Seq<Element>,
    es: Seq<Element>,
    k: int,
    n: int,
    inc: Seq<Seq<char>>,
    d: Seq<Seq<char>>,
    blob: Option<(Seq<char>, Seq<char>)>,
)
    requires
        element_targets(es),
        0 <= k < es.len(),
        0 <= n <= es[k].relations@.len(),
        paired(es, inc, d),
    ensures
        paired(es, relations_part(reg, es[k], n, inc, blob).1, d + relations_decls(reg, es[k], n, inc, blob)),
    decreases n,
{
    let e = es[k];
    if n == 0 {
        assert(d + relations_decls(reg, e, 0, inc, blob) =~= d);
    } else {
        lemma_relations_paired(reg, es, k, n - 1, inc, d, blob);
        let inc1 = relations_part(reg, e, n - 1, inc, blob).1;
        let d1 = d + relations_decls(reg, e, n - 1, inc, blob);
        let r = e.relations@[n - 1];
        let inc2 = relations_part(reg, e, n, inc, blob).1;
        let d2 = d + relations_decls(reg, e, n, inc, blob);
        assert(d2 =~= d1 + relation_decl(r, inc1));
        if r.is_opposite {
            assert(d2 =~= d1);
        } else {
            assert(r == es[k].relations@[n - 1]);
            assert(r.target.link is Identifier);
            match r.target.link {
                LinkType::Identifier(t) => {
                    if inc1.contains(t@) {
                        assert(d2 =~= d1);
                    } else {
                        let tid = r.target.node.node_id@;
                        assert(inc2 == inc1.push(t@));
                        assert(d2 =~= d1.push(tid));
                        assert(target_names(e.relations@[n - 1], t@, tid));
                        assert(node_of(es[k], t@, tid));
                        assert(names_node(es, t@, tid));
                        assert forall|i: int| 0 <= i < inc2.len() implies #[trigger] names_node(es, inc2[i], d2[i]) by {
                            if i < inc1.len() {
                                assert(inc2[i] == inc1[i] && d2[i] == d1[i]);
                                assert(names_node(es, inc1[i], d1[i]));
                            }
                        }
                    }
                },
                _ => {},
            }
        }
    }
}

proof fn lemma_section_paired(reg: Seq<Element>, es: Seq<Element>, n: int, blob: Option<(Seq<char>, Seq<char>)>)
    requires
        element_targets(es),
        0 <= n <= es.len(),
    ensures
        paired(es, section_body(reg, es, n, blob).1, section_decls(reg, es, n, blob)),
    decreases n,
{
    if n > 0 {
        lemma_section_paired(reg, es, n - 1, blob);
        let e = es[n - 1];
        let inc = section_body(reg, es, n - 1, blob).1;
        let d = section_decls(reg, es, n - 1, blob);
        let h = element_head(e, inc, blob).1;
        let dh = d + (if inc.contains(e.identifier@) {
            seq![]
        } else {
            seq![e.node.node_id@]
        });
        if !inc.contains(e.identifier@) {
            assert(node_of(es[n - 1], e.identifier@, e.node.node_id@));
            assert(names_node(es, e.identifier@, e.node.node_id@));
            assert(h == inc.push(e.identifier@));
            assert forall|i: int| 0 <= i < h.len() implies #[trigger] names_node(es, h[i], dh[i]) by {
                if i < inc.len() {
                    assert(h[i] == inc[i] && dh[i] == d[i]);
                    assert(names_node(es, inc[i], d[i]));
                }
            }
        } else {
            assert(dh =~= d);
        }
        assert(paired(es, h, dh));
        lemma_relations_paired(reg, es, n - 1, e.relations@.len() as int, h, dh, blob);
        assert(section_decls(reg, es, n, blob) =~= dh + relations_decls(
            reg,
            e,
            e.relations@.len() as int,
            h,
            blob,
        ));
    }
}

/// When the node identifiers agree with the element identifiers and every
/// drawn relation points at an element, each node of a section's diagram is
/// declared exactly once, and every element of the section has its node
/// declared.
pub proof fn lemma_section_node_ids_once(reg: Seq<Element>, es: Seq<Element>, blob: Option<(Seq<char>, Seq<char>)>)
    requires
        consistent_nodes(es),
        element_targets(es),
    ensures
        section_decls(reg, es, es.len() as int, blob).no_duplicates(),
        forall|k: int|
            0 <= k < es.len() ==> section_decls(reg, es, es.len() as int, blob).contains(
                #[trigger] es[k].node.node_id@,
            ),
{
    let n = es.len() as int;
    lemma_section_paired(reg, es, n, blob);
    lemma_section_nodes_once(reg, es, blob);
    let inc = section_body(reg, es, n, blob).1;
    let d = section_decls(reg, es, n, blob);
    assert forall|a: int, b: int| 0 <= a < d.len() && 0 <= b < d.len() && a != b implies d[a] != d[b] by {
        assert(names_node(es, inc[a], d[a]));
        assert(names_node(es, inc[b], d[b]));
    }
    assert forall|k: int| 0 <= k < es.len() implies d.contains(#[trigger] es[k].node.node_id@) by {
        assert(inc.contains(es[k].identifier@));
        let i = choose|i: int| 0 <= i < inc.len() && inc[i] == es[k].identifier@;
        assert(names_node(es, inc[i], d[i]));
        assert(node_of(es[k], es[k].identifier@, es[k].node.node_id@));
        assert(names_node(es, es[k].identifier@, es[k].node.node_id@));
        assert(d[i] == es[k].node.node_id@);
    }
}

proof fn lemma_members_from(es: Seq<Element>, key: (Seq<char>, Seq<char>))
    ensures
        forall|t: int|
            0 <= t < section_members(es, key).len() ==> exists|j: int|
                0 <= j < es.len() && es[j] == #[trigger] section_members(es, key)[t],
    decreases es.len(),
{
    if es.len() > 0 {
        lemma_members_from(es.drop_last(), key);
        let m = section_members(es.drop_last(), key);
        assert forall|t: int| 0 <= t < section_members(es, key).len() implies exists|j: int|
            0 <= j < es.len() && es[j] == #[trigger] section_members(es, key)[t] by {
            if t < m.len() {
                let j = choose|j: int| 0 <= j < es.drop_last().len() && es.drop_last()[j] == m[t];
                assert(es[j] == es.drop_last()[j]);
                assert(section_members(es, key)[t] == m[t]);
            } else {
                assert(section_members(es, key)[t] == es[es.len() - 1]);
            }
        }
    }
}

/// The node identifiers of `es` are a function of the element identifiers:
/// an element is always drawn under the same node.
pub open spec fn nodes_by_identifier(es: Seq<Element>) -> bool {
    forall|id: Seq<char>, n1: Seq<char>, n2: Seq<char>|
        #[trigger] names_node(es, id, n1) && #[trigger] names_node(es, id, n2) ==> n1 == n2
}

/// Whether some node of `d` is drawn for the element `id`.
spec fn has_node(es: Seq<Element>, id: Seq<char>, d: Seq<Seq<char>>) -> bool {
    exists|p: int| 0 <= p < d.len() && #[trigger] names_node(es, id, d[p])
}

/// Each included identifier has some declared node drawn for it.
spec fn covered(es: Seq<Element>, inc: Seq<Seq<char>>, d: Seq<Seq<char>>) -> bool {
    forall|i: int| 0 <= i < inc.len() ==> #[trigger] has_node(es, inc[i], d)
}

proof fn lemma_covered_grow(es: Seq<Element>, inc: Seq<Seq<char>>, d: Seq<Seq<char>>, more: Seq<Seq<char>>)
    requires
        covered(es, inc, d),
    ensures
        covered(es, inc, d + more),
{
    assert forall|i: int| 0 <= i < inc.len() implies #[trigger] has_node(es, inc[i], d + more) by {
        assert(has_node(es, inc[i], d));
        let p = choose|p: int| 0 <= p < d.len() && #[trigger] names_node(es, inc[i], d[p]);
        assert((d + more)[p] == d[p]);
    }
}

proof fn lemma_covered_push(es: Seq<Element>, inc: Seq<Seq<char>>, d: Seq<Seq<char>>, id: Seq<char>, nid: Seq<char>)
    requires
        covered(es, inc, d),
        names_node(es, id, nid),
    ensures
        covered(es, inc.push(id), d.push(nid)),
{
    lemma_covered_grow(es, inc, d, seq![nid]);
    assert(d + seq![nid] =~= d.push(nid));
    let inc2 = inc.push(id);
    let d2 = d.push(nid);
    assert forall|i: int| 0 <= i < inc2.len() implies #[trigger] has_node(es, inc2[i], d2) by {
        if i == inc.len() {
            assert(d2[d.len() as int] == nid);
            assert(names_node(es, inc2[i], d2[d.len() as int]));
        } else {
            assert(inc2[i] == inc[i]);
            assert(has_node(es, inc[i], d2));
        }
    }
}

proof fn lemma_relations_covered(
    reg: Seq<Element>,
    es: Seq<Element>,
    k: int,
    n: int,
    inc: Seq<Seq<char>>,
    d: Seq<Seq<char>>,
    blob: Option<(Seq<char>, Seq<char>)>,
)
    requires
        0 <= k < es.len(),
        0 <= n <= es[k].relations@.len(),
        covered(es, inc, d),
    ensures
        covered(es, relations_part(reg, es[k], n, inc, blob).1, d + relations_decls(reg, es[k], n, inc, blob)),
    decreases n,
{
    let e = es[k];
    if n == 0 {
        assert(d + relations_decls(reg, e, 0, inc, blob) =~= d);
    } else {
        lemma_relations_covered(reg, es, k, n - 1, inc, d, blob);
        let inc1 = relations_part(reg, e, n - 1, inc, blob).1;
        let d1 = d + relations_decls(reg, e, n - 1, inc, blob);
        let r = e.relations@[n - 1];
        let d2 = d + relations_decls(reg, e, n, inc, blob);
        assert(d2 =~= d1 + relation_decl(r, inc1));
        match r.target.link {
            LinkType::Identifier(t) => {
                if !r.is_opposite && !inc1.contains(t@) {
                    let tid = r.target.node.node_id@;
                    assert(target_names(e.relations@[n - 1], t@, tid));
                    assert(node_of(es[k], t@, tid));
                    assert(names_node(es, t@, tid));
                    assert(d2 =~= d1.push(tid));
                    lemma_covered_push(es, inc1, d1, t@, tid);
                } else {
                    lemma_covered_grow(es, inc1, d1, relation_decl(r, inc1));
                }
            },
            _ => {
                lemma_covered_grow(es, inc1, d1, relation_decl(r, inc1));
            },
        }
    }
}

proof fn lemma_section_covered(reg: Seq<Element>, es: Seq<Element>, n: int, blob: Option<(Seq<char>, Seq<char>)>)
    requires
        0 <= n <= es.len(),
    ensures
        covered(es, section_body(reg, es, n, blob).1, section_decls(reg, es, n, blob)),
    decreases n,
{
    if n > 0 {
        lemma_section_covered(reg, es, n - 1, blob);
        let e = es[n - 1];
        let inc = section_body(reg, es, n - 1, blob).1;
        let d = section_decls(reg, es, n - 1, blob);
        let h = element_head(e, inc, blob).1;
        let dh = d + (if inc.contains(e.identifier@) {
            seq![]
        } else {
            seq![e.node.node_id@]
        });
        if !inc.contains(e.identifier@) {
            assert(node_of(es[n - 1], e.identifier@, e.node.node_id@));
            assert(names_node(es, e.identifier@, e.node.node_id@));
            assert(dh =~= d.push(e.node.node_id@));
            lemma_covered_push(es, inc, d, e.identifier@, e.node.node_id@);
        } else {
            assert(dh =~= d);
        }
        lemma_relations_covered(reg, es, n - 1, e.relations@.len() as int, h, dh, blob);
        assert(section_decls(reg, es, n, blob) =~= dh + relations_decls(
            reg,
            e,
            e.relations@.len() as int,
            h,
            blob,
        ));
    }
}

/// When the node identifiers of the registry are a function of the element
/// identifiers, every element has its node declared in the diagram of its
/// own section.
pub proof fn lemma_each_element_drawn(reg: Seq<Element>, es: Seq<Element>, blob: Option<(Seq<char>, Seq<char>)>)
    requires
        nodes_by_identifier(es),
    ensures
        forall|j: int|
            0 <= j < es.len() ==> {
                let ms = section_members(es, section_key(es[j]));
                section_decls(reg, ms, ms.len() as int, blob).contains(#[trigger] es[j].node.node_id@)
            },
{
    assert forall|j: int| 0 <= j < es.len() implies {
        let ms = section_members(es, section_key(es[j]));
        section_decls(reg, ms, ms.len() as int, blob).contains(#[trigger] es[j].node.node_id@)
    } by {
        let key = section_key(es[j]);
        let ms = section_members(es, key);
        lemma_members_from(es, key);
        lemma_members_contain(es, key, j);
        let t = choose|t: int| 0 <= t < ms.len() && ms[t] == es[j];
        lemma_section_covered(reg, ms, ms.len() as int, blob);
        lemma_section_nodes_once(reg, ms, blob);
        let inc = section_body(reg, ms, ms.len() as int, blob).1;
        let d = section_decls(reg, ms, ms.len() as int, blob);
        let id = ms[t].identifier@;
        assert(inc.contains(id));
        let i = choose|i: int| 0 <= i < inc.len() && inc[i] == id;
        assert(has_node(ms, inc[i], d));
        let p = choose|p: int| 0 <= p < d.len() && #[trigger] names_node(ms, inc[i], d[p]);
        assert(node_of(ms[t], id, ms[t].node.node_id@));
        assert(names_node(ms, id, ms[t].node.node_id@));
        // Both node ids are drawn for `id` by elements of the registry.
        let t1 = choose|x: int| 0 <= x < ms.len() && #[trigger] node_of(ms[x], id, d[p]);
        let j1 = choose|x: int| 0 <= x < es.len() && es[x] == ms[t1];
        assert(node_of(es[j1], id, d[p]));
        assert(names_node(es, id, d[p]));
        assert(node_of(es[j], id, es[j].node.node_id@));
        assert(names_node(es, id, es[j].node.node_id@));
        assert(d[p] == es[j].node.node_id@);
    }
}

} // verus!
