//! Mermaid diagrams of the elements of each section of each document.
use vstd::prelude::*;
use crate::error::ReqvireError;
use crate::model::{Element, ElementRegistry, ElementType, LinkType, NodeRef, Relation, RelationDirection, lookup};
use crate::text::{replace_all, replace_str};
use crate::updates::pair_views;

verus! {

/// The lines that declare a diagram node, its style class and its click link.
pub open spec fn node_block(id: Seq<char>, label: Seq<char>, class: Seq<char>, click: Seq<char>) -> Seq<char> {
    "  "@ + id + "[\""@ + label + "\"];\n"@ + "  class "@ + id + " "@ + class + ";\n"@ + "  click "@ + id
        + " \""@ + click + "\";\n"@
}

/// The style class of an element type.
pub open spec fn class_name(t: ElementType) -> Seq<char> {
    match t {
        ElementType::Requirement(_) => "requirement"@,
        ElementType::Verification(_) => "verification"@,
        ElementType::Other(_) => "default"@,
    }
}

/// Whether repository root, base address and commit are all known.
pub open spec fn has_git_info(repo_root: Seq<char>, base_url: Seq<char>, commit_hash: Seq<char>) -> bool {
    base_url.len() > 0 && commit_hash.len() > 0 && repo_root.len() > 0
}

/// The base address and commit that click links point into, when diagrams
/// link to repository blobs; `None` when they link relatively.
pub open spec fn blob_base(
    with_blobs: bool,
    repo_root: Seq<char>,
    base_url: Seq<char>,
    commit_hash: Seq<char>,
) -> Option<(Seq<char>, Seq<char>)> {
    if with_blobs && has_git_info(repo_root, base_url, commit_hash) {
        Some((base_url, commit_hash))
    } else {
        None
    }
}

/// The link of a node: into the repository at the blob base (by its
/// repository path, or `fallback` when that path is unknown), or else its
/// relative link.
pub open spec fn click_link(n: NodeRef, fallback: Seq<char>, blob: Option<(Seq<char>, Seq<char>)>) -> Seq<char> {
    match blob {
        Some((url, commit)) => url + "/blob/"@ + commit + "/"@ + match n.repo_path {
            Some(p) => p@,
            None => fallback,
        },
        None => match n.relative_link {
            Some(l) => l@,
            None => seq![],
        },
    }
}

/// The style class of the node of the element `id` of the registry
/// `reg`; `"default"` when the registry has no such element.
pub open spec fn target_class(reg: Seq<Element>, id: Seq<char>) -> Seq<char> {
    match lookup(reg, id) {
        Some(x) => class_name(x.element_type),
        None => "default"@,
    }
}

/// The node of element `e` unless `inc` already holds its identifier, and
/// the identifiers included afterwards.
pub open spec fn element_head(e: Element, inc: Seq<Seq<char>>, blob: Option<(Seq<char>, Seq<char>)>) -> (
    Seq<char>,
    Seq<Seq<char>>,
) {
    if inc.contains(e.identifier@) {
        (seq![], inc)
    } else {
        (
            node_block(
                e.node.node_id@,
                replace_all(e.name@, "\""@, "&quot;"@),
                class_name(e.element_type),
                click_link(e.node, e.identifier@, blob),
            ),
            inc.push(e.identifier@),
        )
    }
}

/// The node of the target of relation `r`: an element target once per
/// diagram, an address or a path every time.
pub open spec fn target_node(
    reg: Seq<Element>,
    r: Relation,
    inc: Seq<Seq<char>>,
    blob: Option<(Seq<char>, Seq<char>)>,
) -> (Seq<char>, Seq<Seq<char>>) {
    let t = r.target;
    let tid = t.node.node_id@;
    match t.link {
        LinkType::Identifier(id) => if inc.contains(id@) {
            (seq![], inc)
        } else {
            (
                node_block(tid, t.text@, target_class(reg, id@), click_link(t.node, id@, blob)),
                inc.push(id@),
            )
        },
        LinkType::ExternalUrl(url) => (node_block(tid, t.text@, "default"@, url@), inc),
        LinkType::InternalPath(p) => (
            node_block(tid, t.text@, "default"@, click_link(t.node, p@, blob)),
            inc,
        ),
    }
}

/// The edge line of relation `r` held by the element with node `eid`.
pub open spec fn relation_edge(eid: Seq<char>, r: Relation) -> Seq<char> {
    let tid = r.target.node.node_id@;
    match r.relation_type.info {
        Some(info) => {
            let from = if info.direction == RelationDirection::Forward {
                tid
            } else {
                eid
            };
            let to = if info.direction == RelationDirection::Forward {
                eid
            } else {
                tid
            };
            "  "@ + from + " "@ + info.arrow@ + "|"@ + info.label@ + "| "@ + to + ";\n"@
        },
        None => "  "@ + eid + " -->|relates to| "@ + tid + ";\n"@,
    }
}

/// The text a relation adds: nothing for an opposite relation, else the
/// target's node (when due) and the edge.
pub open spec fn relation_part(
    reg: Seq<Element>,
    e: Element,
    r: Relation,
    inc: Seq<Seq<char>>,
    blob: Option<(Seq<char>, Seq<char>)>,
) -> (Seq<char>, Seq<Seq<char>>) {
    if r.is_opposite {
        (seq![], inc)
    } else {
        let (t, inc2) = target_node(reg, r, inc, blob);
        (t + relation_edge(e.node.node_id@, r), inc2)
    }
}

/// The text of the first `n` relations of `e`.
pub open spec fn relations_part(
    reg: Seq<Element>,
    e: Element,
    n: int,
    inc: Seq<Seq<char>>,
    blob: Option<(Seq<char>, Seq<char>)>,
) -> (Seq<char>, Seq<Seq<char>>)
    decreases n,
{
    if n <= 0 {
        (seq![], inc)
    } else {
        let (t, inc1) = relations_part(reg, e, n - 1, inc, blob);
        let (t2, inc2) = relation_part(reg, e, e.relations@[n - 1], inc1, blob);
        (t + t2, inc2)
    }
}

/// The text element `e` adds to a diagram, and the identifiers included
/// afterwards.
pub open spec fn element_part(
    reg: Seq<Element>,
    e: Element,
    inc: Seq<Seq<char>>,
    blob: Option<(Seq<char>, Seq<char>)>,
) -> (Seq<char>, Seq<Seq<char>>) {
    let (t0, inc0) = element_head(e, inc, blob);
    let (t1, inc1) = relations_part(reg, e, e.relations@.len() as int, inc0, blob);
    (t0 + t1, inc1)
}

/// The target of `r` when no relative link to it could be formed.
pub open spec fn relation_unresolved(r: Relation) -> Option<Seq<char>> {
    if r.is_opposite || r.target.node.relative_link is Some {
        None
    } else {
        match r.target.link {
            LinkType::Identifier(id) => Some(id@),
            LinkType::ExternalUrl(_) => None,
            LinkType::InternalPath(p) => Some(p@),
        }
    }
}

/// The first unresolved target among the first `n` relations in `rs`.
pub open spec fn first_unresolved(rs: Seq<Relation>, n: int) -> Option<Seq<char>>
    decreases n,
{
    if n <= 0 {
        None
    } else {
        match first_unresolved(rs, n - 1) {
            Some(x) => Some(x),
            None => relation_unresolved(rs[n - 1]),
        }
    }
}

proof fn lemma_first_unresolved_stays(rs: Seq<Relation>, k: int, m: int)
    requires
        k <= m,
        first_unresolved(rs, k) is Some,
    ensures
        first_unresolved(rs, m) == first_unresolved(rs, k),
    decreases m - k,
{
    if k < m {
        lemma_first_unresolved_stays(rs, k, m - 1);
    }
}

/// Whether the relation at `i` of `rs` is the first whose link is
/// unresolved.
pub open spec fn fails_at(rs: Seq<Relation>, i: int) -> bool {
    &&& 0 <= i < rs.len()
    &&& first_unresolved(rs, i) is None
    &&& relation_unresolved(rs[i]) is Some
}

/// The identifier or path of `e` for which no relative link could be formed
/// (the element's own first, then its relations' in order); `None` when
/// every link the diagram needs is resolved.
pub open spec fn element_unresolved(e: Element) -> Option<Seq<char>> {
    if e.node.relative_link is None {
        Some(e.identifier@)
    } else {
        first_unresolved(e.relations@, e.relations@.len() as int)
    }
}

/// The views of a list of identifiers.
pub open spec fn ids_view(v: Seq<String>) -> Seq<Seq<char>> {
    v.map_values(|s: String| s@)
}

fn contains_id(inc: &Vec<String>, id: &String) -> (r: bool)
    ensures
        r == ids_view(inc@).contains(id@),
{
    let n = inc.len();
    let mut i: usize = 0;
    while i < n
        invariant
            i <= n,
            n == inc@.len(),
            forall|j: int| 0 <= j < i ==> inc@[j]@ != id@,
        decreases n - i,
    {
        if inc[i] == *id {
            assert(ids_view(inc@)[i as int] == id@);
            return true;
        }
        i = i + 1;
    }
    proof {
        if ids_view(inc@).contains(id@) {
            let j = choose|j: int| 0 <= j < ids_view(inc@).len() && ids_view(inc@)[j] == id@;
            assert(inc@[j]@ == id@);
        }
    }
    false
}

fn class_of(t: &ElementType) -> (r: &'static str)
    ensures
        r@ == class_name(*t),
{
    match t {
        ElementType::Requirement(_) => "requirement",
        ElementType::Verification(_) => "verification",
        ElementType::Other(_) => "default",
    }
}

fn push_node_block(diagram: &mut String, id: &str, label: &str, class: &str, click: &str)
    ensures
        final(diagram)@ == old(diagram)@ + node_block(id@, label@, class@, click@),
{
    diagram.append("  ");
    diagram.append(id);
    diagram.append("[\"");
    diagram.append(label);
    diagram.append("\"];\n");
    diagram.append("  class ");
    diagram.append(id);
    diagram.append(" ");
    diagram.append(class);
    diagram.append(";\n");
    diagram.append("  click ");
    diagram.append(id);
    diagram.append(" \"");
    diagram.append(click);
    diagram.append("\";\n");
    assert(final(diagram)@ =~= old(diagram)@ + node_block(id@, label@, class@, click@));
}

fn click_of(node: &NodeRef, fallback: &str, blob: bool, base_url: &str, commit_hash: &str) -> (r: String)
    ensures
        r@ == click_link(
            *node,
            fallback@,
            if blob {
                Some((base_url@, commit_hash@))
            } else {
                None
            },
        ),
{
    if blob {
        let mut s = base_url.to_owned();
        s.append("/blob/");
        s.append(commit_hash);
        s.append("/");
        match &node.repo_path {
            Some(p) => s.append(p.as_str()),
            None => s.append(fallback),
        }
        s
    } else {
        match &node.relative_link {
            Some(l) => l.clone(),
            None => String::new(),
        }
    }
}

fn push_edge(diagram: &mut String, eid: &String, r: &Relation)
    ensures
        final(diagram)@ == old(diagram)@ + relation_edge(eid@, *r),
{
    let tid = &r.target.node.node_id;
    match &r.relation_type.info {
        Some(info) => {
            let forward = info.direction == RelationDirection::Forward;
            diagram.append("  ");
            diagram.append(if forward { tid.as_str() } else { eid.as_str() });
            diagram.append(" ");
            diagram.append(info.arrow.as_str());
            diagram.append("|");
            diagram.append(info.label.as_str());
            diagram.append("| ");
            diagram.append(if forward { eid.as_str() } else { tid.as_str() });
            diagram.append(";\n");
        },
        None => {
            diagram.append("  ");
            diagram.append(eid.as_str());
            diagram.append(" -->|relates to| ");
            diagram.append(tid.as_str());
            diagram.append(";\n");
        },
    }
    assert(final(diagram)@ =~= old(diagram)@ + relation_edge(eid@, *r));
}

fn add_relation_to_diagram(
    registry: &ElementRegistry,
    diagram: &mut String,
    element: &Element,
    r: &Relation,
    included_elements: &mut Vec<String>,
    blob: bool,
    base_url: &str,
    commit_hash: &str,
) -> (res: Result<(), ReqvireError>)
    ensures
        res is Ok <==> relation_unresolved(*r) is None,
        res matches Err(ReqvireError::UnresolvedLink(x)) ==> relation_unresolved(*r) == Some(x@),
        res is Err ==> res matches Err(ReqvireError::UnresolvedLink(_)),
        res is Err ==> final(diagram)@ == old(diagram)@ && final(included_elements)@ == old(included_elements)@,
        res is Ok ==> ({
            let (t, inc) = relation_part(
                registry.elements@,
                *element,
                *r,
                ids_view(old(included_elements)@),
                if blob {
                    Some((base_url@, commit_hash@))
                } else {
                    None
                },
            );
            &&& final(diagram)@ == old(diagram)@ + t
            &&& ids_view(final(included_elements)@) == inc
        }),
{
    let ghost reg = registry.elements@;
    let ghost bb = if blob {
        Some((base_url@, commit_hash@))
    } else {
        None::<(Seq<char>, Seq<char>)>
    };
    let ghost inc0 = ids_view(included_elements@);
    let ghost d_before = diagram@;
    if r.is_opposite {
        assert(diagram@ =~= d_before + relation_part(reg, *element, *r, inc0, bb).0);
        return Ok(());
    }
    match &r.target.link {
        LinkType::Identifier(target) => {
            if r.target.node.relative_link.is_none() {
                return Err(ReqvireError::UnresolvedLink(target.clone()));
            }
            let tclick = click_of(&r.target.node, target.as_str(), blob, base_url, commit_hash);
            if !contains_id(included_elements, target) {
                let ghost prev = included_elements@;
                included_elements.push(target.clone());
                assert(ids_view(included_elements@) =~= ids_view(prev).push(target@));
                let class = match registry.get_element(target.as_str()) {
                    Some(x) => class_of(&x.element_type),
                    None => "default",
                };
                assert(class@ == target_class(reg, target@));
                push_node_block(
                    diagram,
                    r.target.node.node_id.as_str(),
                    r.target.text.as_str(),
                    class,
                    tclick.as_str(),
                );
            }
        },
        LinkType::ExternalUrl(url) => {
            push_node_block(
                diagram,
                r.target.node.node_id.as_str(),
                r.target.text.as_str(),
                "default",
                url.as_str(),
            );
        },
        LinkType::InternalPath(path) => {
            if r.target.node.relative_link.is_none() {
                return Err(ReqvireError::UnresolvedLink(path.clone()));
            }
            let tclick = click_of(&r.target.node, path.as_str(), blob, base_url, commit_hash);
            push_node_block(
                diagram,
                r.target.node.node_id.as_str(),
                r.target.text.as_str(),
                "default",
                tclick.as_str(),
            );
        },
    }
    assert(diagram@ =~= d_before + target_node(reg, *r, inc0, bb).0);
    push_edge(diagram, &element.node.node_id, r);
    assert(diagram@ =~= d_before + relation_part(reg, *element, *r, inc0, bb).0);
    Ok(())
}

/// Adds an element and its relations to the diagram.
///
/// The element's node is added unless `included_elements` already holds its
/// identifier; then, for each relation that is not an opposite one, the
/// target's node (an element target once per diagram, an address or a path
/// every time) and the edge. Click links point into the repository at
/// `base_url` and `commit_hash` when `diagrams_with_blobs` is set and
/// `repo_root`, `base_url` and `commit_hash` are all known, and are relative
/// links otherwise. The links in `element` were resolved relative to the
/// directory of `file_path`.
///
/// Fails, naming the identifier or path, when a link relative to that
/// directory is missing for the element or for the target of a relation
/// that is drawn to an element or a path.
pub fn add_element_to_diagram(
    registry: &ElementRegistry,
    diagram: &mut String,
    element: &Element,
    included_elements: &mut Vec<String>,
    file_path: &str,
    diagrams_with_blobs: bool,
    repo_root: &str,
    base_url: &str,
    commit_hash: &str,
) -> (r: Result<(), ReqvireError>)
    ensures
        r is Ok <==> element_unresolved(*element) is None,
        r matches Err(ReqvireError::UnresolvedLink(x)) ==> element_unresolved(*element) == Some(x@),
        r is Err ==> r matches Err(ReqvireError::UnresolvedLink(_)),
        r is Ok ==> ({
            let (t, inc) = element_part(
                registry.elements@,
                *element,
                ids_view(old(included_elements)@),
                blob_base(diagrams_with_blobs, repo_root@, base_url@, commit_hash@),
            );
            &&& final(diagram)@ == old(diagram)@ + t
            &&& ids_view(final(included_elements)@) == inc
        }),
        r is Err && element.node.relative_link is None ==> final(diagram)@ == old(diagram)@
            && final(included_elements)@ == old(included_elements)@,
        r is Err && element.node.relative_link is Some ==> exists|i: int|
            #[trigger] fails_at(element.relations@, i) && ({
                let bb = blob_base(diagrams_with_blobs, repo_root@, base_url@, commit_hash@);
                let (t, inc) = element_head(*element, ids_view(old(included_elements)@), bb);
                let (t2, inc2) = relations_part(registry.elements@, *element, i, inc, bb);
                &&& final(diagram)@ == old(diagram)@ + t + t2
                &&& ids_view(final(included_elements)@) == inc2
            }),
{
    let ghost reg = registry.elements@;
    let blob = diagrams_with_blobs && !base_url.is_empty() && !commit_hash.is_empty()
        && !repo_root.is_empty();
    let ghost bb = blob_base(diagrams_with_blobs, repo_root@, base_url@, commit_hash@);
    assert(bb == if blob {
        Some((base_url@, commit_hash@))
    } else {
        None::<(Seq<char>, Seq<char>)>
    });
    if element.node.relative_link.is_none() {
        return Err(ReqvireError::UnresolvedLink(element.identifier.clone()));
    }
    let ghost inc_start = ids_view(included_elements@);
    let ghost d_start = diagram@;
    let click = click_of(&element.node, element.identifier.as_str(), blob, base_url, commit_hash);
    let eid = &element.node.node_id;
    if !contains_id(included_elements, &element.identifier) {
        let ghost prev = included_elements@;
        included_elements.push(element.identifier.clone());
        assert(ids_view(included_elements@) =~= ids_view(prev).push(element.identifier@));
        proof {
            reveal_strlit("\"");
        }
        let label = replace_str(element.name.as_str(), "\"", "&quot;");
        push_node_block(
            diagram,
            eid.as_str(),
            label.as_str(),
            class_of(&element.element_type),
            click.as_str(),
        );
    }
    let ghost head = element_head(*element, inc_start, bb);
    let n = element.relations.len();
    let mut i: usize = 0;
    while i < n
        invariant
            i <= n,
            n == element.relations@.len(),
            reg == registry.elements@,
            element.node.relative_link is Some,
            bb == (if blob {
                Some((base_url@, commit_hash@))
            } else {
                None::<(Seq<char>, Seq<char>)>
            }),
            first_unresolved(element.relations@, i as int) is None,
            d_start == old(diagram)@,
            inc_start == ids_view(old(included_elements)@),
            bb == blob_base(diagrams_with_blobs, repo_root@, base_url@, commit_hash@),
            head == element_head(*element, inc_start, bb),
            diagram@ == d_start + head.0 + relations_part(reg, *element, i as int, head.1, bb).0,
            ids_view(included_elements@) == relations_part(reg, *element, i as int, head.1, bb).1,
        decreases n - i,
    {
        let r = &element.relations[i];
        match add_relation_to_diagram(
            registry,
            diagram,
            element,
            r,
            included_elements,
            blob,
            base_url,
            commit_hash,
        ) {
            Ok(()) => {},
            Err(e) => {
                proof {
                    lemma_first_unresolved_stays(element.relations@, i + 1, n as int);
                }
                assert(relation_unresolved(element.relations@[i as int]) is Some);
                assert(fails_at(element.relations@, i as int));
                return Err(e);
            },
        }
        assert(diagram@ =~= d_start + head.0 + relations_part(reg, *element, i + 1, head.1, bb).0);
        i = i + 1;
    }
    Ok(())
}


/// Where click links point and the repository they point into; empty
/// strings stand for what is not known.
pub struct GitInfo {
    pub repo_root: String,
    pub base_url: String,
    pub commit_hash: String,
}

impl GitInfo {
    /// The repository information from the three lookups, each `None` when it
    /// failed: an unknown root and base address become empty, an unknown
    /// commit becomes `HEAD`.
    pub fn from_lookups(repo_root: Option<String>, base_url: Option<String>, commit_hash: Option<String>) -> (g: GitInfo)
        ensures
            g.repo_root@ == match repo_root {
                Some(x) => x@,
                None => seq![],
            },
            g.base_url@ == match base_url {
                Some(x) => x@,
                None => seq![],
            },
            g.commit_hash@ == match commit_hash {
                Some(x) => x@,
                None => "HEAD"@,
            },
    {
        GitInfo {
            repo_root: match repo_root {
                Some(x) => x,
                None => String::new(),
            },
            base_url: match base_url {
                Some(x) => x,
                None => String::new(),
            },
            commit_hash: match commit_hash {
                Some(x) => x,
                None => "HEAD".to_owned(),
            },
        }
    }
}

/// The style definitions every diagram starts with.
pub open spec fn diagram_styles() -> Seq<char> {
    "  %% Graph styling\n"@ + "  classDef requirement fill:#f9d6d6,stroke:#f55f5f,stroke-width:1px;\n"@
        + "  classDef verification fill:#d6f9d6,stroke:#5fd75f,stroke-width:1px;\n"@
        + "  classDef externalLink fill:#d0e0ff,stroke:#3080ff,stroke-width:1px;\n"@
        + "  classDef default fill:#f5f5f5,stroke:#333333,stroke-width:1px;\n\n"@
}

/// The opening of a diagram drawn in `direction`.
pub open spec fn diagram_header(direction: Seq<char>) -> Seq<char> {
    "```mermaid\ngraph "@ + direction + ";\n"@ + diagram_styles()
}

/// The elements behind a list of references.
pub open spec fn derefs(es: Seq<&Element>) -> Seq<Element> {
    es.map_values(|e: &Element| *e)
}

/// The text of the first `n` elements of `es`, and the identifiers included.
pub open spec fn section_body(
    reg: Seq<Element>,
    es: Seq<Element>,
    n: int,
    blob: Option<(Seq<char>, Seq<char>)>,
) -> (Seq<char>, Seq<Seq<char>>)
    decreases n,
{
    if n <= 0 {
        (seq![], seq![])
    } else {
        let (t, inc) = section_body(reg, es, n - 1, blob);
        let (t2, inc2) = element_part(reg, es[n - 1], inc, blob);
        (t + t2, inc2)
    }
}

/// The diagram of the elements `es`.
pub open spec fn section_diagram(
    reg: Seq<Element>,
    es: Seq<Element>,
    direction: Seq<char>,
    blob: Option<(Seq<char>, Seq<char>)>,
) -> Seq<char> {
    diagram_header(direction) + section_body(reg, es, es.len() as int, blob).0 + "```"@
}

proof fn lemma_push_new<T>(s: Seq<T>, x: T)
    requires
        s.no_duplicates(),
        !s.contains(x),
    ensures
        s.push(x).no_duplicates(),
        s.push(x).contains(x),
        forall|y: T| s.contains(y) ==> #[trigger] s.push(x).contains(y),
{
    assert(s.push(x)[s.len() as int] == x);
    assert forall|y: T| s.contains(y) implies #[trigger] s.push(x).contains(y) by {
        let i = choose|i: int| 0 <= i < s.len() && s[i] == y;
        assert(s.push(x)[i] == y);
    }
}

proof fn lemma_relations_part_ids(
    reg: Seq<Element>,
    e: Element,
    n: int,
    inc: Seq<Seq<char>>,
    blob: Option<(Seq<char>, Seq<char>)>,
)
    requires
        inc.no_duplicates(),
    ensures
        relations_part(reg, e, n, inc, blob).1.no_duplicates(),
        forall|x: Seq<char>| inc.contains(x) ==> #[trigger] relations_part(reg, e, n, inc, blob).1.contains(x),
    decreases n,
{
    if n > 0 {
        lemma_relations_part_ids(reg, e, n - 1, inc, blob);
        let i1 = relations_part(reg, e, n - 1, inc, blob).1;
        let r = e.relations@[n - 1];
        if !r.is_opposite {
            match r.target.link {
                LinkType::Identifier(id) => {
                    if !i1.contains(id@) {
                        lemma_push_new(i1, id@);
                    }
                },
                _ => {},
            }
        }
    }
}

proof fn lemma_element_part_ids(
    reg: Seq<Element>,
    e: Element,
    inc: Seq<Seq<char>>,
    blob: Option<(Seq<char>, Seq<char>)>,
)
    requires
        inc.no_duplicates(),
    ensures
        element_part(reg, e, inc, blob).1.no_duplicates(),
        element_part(reg, e, inc, blob).1.contains(e.identifier@),
        forall|x: Seq<char>| inc.contains(x) ==> #[trigger] element_part(reg, e, inc, blob).1.contains(x),
{
    let h = element_head(e, inc, blob).1;
    if !inc.contains(e.identifier@) {
        lemma_push_new(inc, e.identifier@);
    }
    lemma_relations_part_ids(reg, e, e.relations@.len() as int, h, blob);
}

proof fn lemma_section_body_ids(
    reg: Seq<Element>,
    es: Seq<Element>,
    n: int,
    blob: Option<(Seq<char>, Seq<char>)>,
)
    requires
        n <= es.len(),
    ensures
        section_body(reg, es, n, blob).1.no_duplicates(),
        forall|k: int| 0 <= k < n ==> section_body(reg, es, n, blob).1.contains(#[trigger] es[k].identifier@),
    decreases n,
{
    if n > 0 {
        lemma_section_body_ids(reg, es, n - 1, blob);
        let i1 = section_body(reg, es, n - 1, blob).1;
        lemma_element_part_ids(reg, es[n - 1], i1, blob);
    }
}

/// In the diagram of a section, the identifiers that are given a node are
/// distinct (a node is only declared for an identifier not yet included),
/// and every element of the section is among them.
pub proof fn lemma_section_nodes_once(
    reg: Seq<Element>,
    es: Seq<Element>,
    blob: Option<(Seq<char>, Seq<char>)>,
)
    ensures
        section_body(reg, es, es.len() as int, blob).1.no_duplicates(),
        forall|k: int|
            0 <= k < es.len() ==> section_body(reg, es, es.len() as int, blob).1.contains(#[trigger] es[k].identifier@),
{
    lemma_section_body_ids(reg, es, es.len() as int, blob);
}

/// The first unresolved identifier or path among the first `n` elements.
pub open spec fn section_unresolved(es: Seq<Element>, n: int) -> Option<Seq<char>>
    decreases n,
{
    if n <= 0 {
        None
    } else {
        match section_unresolved(es, n - 1) {
            Some(x) => Some(x),
            None => element_unresolved(es[n - 1]),
        }
    }
}

proof fn lemma_section_unresolved_stays(es: Seq<Element>, k: int, m: int)
    requires
        k <= m,
        section_unresolved(es, k) is Some,
    ensures
        section_unresolved(es, m) == section_unresolved(es, k),
    decreases m - k,
{
    if k < m {
        lemma_section_unresolved_stays(es, k, m - 1);
    }
}

/// Generates a diagram for a single section.
///
/// The diagram is a Mermaid block drawn in `direction`: the style
/// definitions, then each element in order as `add_element_to_diagram` adds
/// it (each element identifier gets one node in the whole diagram), then the
/// closing fence. Fails as the first element that fails does.
pub fn generate_section_diagram(
    registry: &ElementRegistry,
    section: &str,
    elements: &[&Element],
    file_path: &str,
    direction: &str,
    diagrams_with_blobs: bool,
    git: &GitInfo,
) -> (r: Result<String, ReqvireError>)
    ensures
        r is Ok <==> section_unresolved(derefs(elements@), elements@.len() as int) is None,
        r matches Err(ReqvireError::UnresolvedLink(x)) ==> section_unresolved(
            derefs(elements@),
            elements@.len() as int,
        ) == Some(x@),
        r is Err ==> r matches Err(ReqvireError::UnresolvedLink(_)),
        r matches Ok(d) ==> d@ == section_diagram(
            registry.elements@,
            derefs(elements@),
            direction@,
            blob_base(diagrams_with_blobs, git.repo_root@, git.base_url@, git.commit_hash@),
        ),
{
    let ghost es = derefs(elements@);
    let ghost reg = registry.elements@;
    let ghost bb = blob_base(diagrams_with_blobs, git.repo_root@, git.base_url@, git.commit_hash@);
    let mut diagram = "```mermaid\ngraph ".to_owned();
    diagram.append(direction);
    diagram.append(";\n");
    diagram.append("  %% Graph styling\n");
    diagram.append("  classDef requirement fill:#f9d6d6,stroke:#f55f5f,stroke-width:1px;\n");
    diagram.append("  classDef verification fill:#d6f9d6,stroke:#5fd75f,stroke-width:1px;\n");
    diagram.append("  classDef externalLink fill:#d0e0ff,stroke:#3080ff,stroke-width:1px;\n");
    diagram.append("  classDef default fill:#f5f5f5,stroke:#333333,stroke-width:1px;\n\n");
    assert(diagram@ =~= diagram_header(direction@));
    let mut included_elements: Vec<String> = Vec::new();
    assert(ids_view(included_elements@) =~= seq![]);
    let n = elements.len();
    let mut i: usize = 0;
    while i < n
        invariant
            i <= n,
            n == elements@.len(),
            es == derefs(elements@),
            reg == registry.elements@,
            bb == blob_base(diagrams_with_blobs, git.repo_root@, git.base_url@, git.commit_hash@),
            section_unresolved(es, i as int) is None,
            diagram@ == diagram_header(direction@) + section_body(reg, es, i as int, bb).0,
            ids_view(included_elements@) == section_body(reg, es, i as int, bb).1,
        decreases n - i,
    {
        assert(es[i as int] == *elements@[i as int]);
        let res = add_element_to_diagram(
            registry,
            &mut diagram,
            elements[i],
            &mut included_elements,
            file_path,
            diagrams_with_blobs,
            git.repo_root.as_str(),
            git.base_url.as_str(),
            git.commit_hash.as_str(),
        );
        match res {
            Ok(()) => {},
            Err(e) => {
                proof {
                    lemma_section_unresolved_stays(es, i + 1, n as int);
                }
                return Err(e);
            },
        }
        assert(diagram@ =~= diagram_header(direction@) + section_body(reg, es, i + 1, bb).0);
        i = i + 1;
    }
    diagram.append("```");
    Ok(diagram)
}


/// The document and section an element belongs to.
pub open spec fn section_key(e: Element) -> (Seq<char>, Seq<char>) {
    (e.file_path@, e.section@)
}

/// The distinct (document, section) pairs of `es`, in order of first
/// appearance.
pub open spec fn section_keys(es: Seq<Element>) -> Seq<(Seq<char>, Seq<char>)>
    decreases es.len(),
{
    if es.len() == 0 {
        seq![]
    } else {
        let d = section_keys(es.drop_last());
        if d.contains(section_key(es.last())) {
            d
        } else {
            d.push(section_key(es.last()))
        }
    }
}

/// The elements of `es` in (document, section) `k`, in order.
pub open spec fn section_members(es: Seq<Element>, k: (Seq<char>, Seq<char>)) -> Seq<Element>
    decreases es.len(),
{
    if es.len() == 0 {
        seq![]
    } else {
        let m = section_members(es.drop_last(), k);
        if section_key(es.last()) == k {
            m.push(es.last())
        } else {
            m
        }
    }
}

/// The key under which the diagram of (document, section) `k` is returned.
pub open spec fn diagram_key(k: (Seq<char>, Seq<char>)) -> Seq<char> {
    k.0 + "::"@ + k.1
}

/// The first unresolved identifier or path met when the sections of the
/// first `n` keys are drawn in order.
pub open spec fn sections_unresolved(es: Seq<Element>, keys: Seq<(Seq<char>, Seq<char>)>, n: int) -> Option<
    Seq<char>,
>
    decreases n,
{
    if n <= 0 {
        None
    } else {
        match sections_unresolved(es, keys, n - 1) {
            Some(x) => Some(x),
            None => {
                let m = section_members(es, keys[n - 1]);
                section_unresolved(m, m.len() as int)
            },
        }
    }
}

proof fn lemma_sections_unresolved_stays(es: Seq<Element>, keys: Seq<(Seq<char>, Seq<char>)>, k: int, m: int)
    requires
        k <= m,
        sections_unresolved(es, keys, k) is Some,
    ensures
        sections_unresolved(es, keys, m) == sections_unresolved(es, keys, k),
    decreases m - k,
{
    if k < m {
        lemma_sections_unresolved_stays(es, keys, k, m - 1);
    }
}

proof fn lemma_section_unresolved_all(es: Seq<Element>, n: int)
    requires
        0 <= n <= es.len(),
    ensures
        section_unresolved(es, n) is None <==> forall|k: int| 0 <= k < n ==> (#[trigger] element_unresolved(es[k])) is None,
        section_unresolved(es, n) matches Some(x) ==> exists|k: int| 0 <= k < n && element_unresolved(es[k]) == Some(x),
    decreases n,
{
    if n > 0 {
        lemma_section_unresolved_all(es, n - 1);
    }
}

proof fn lemma_keys_contain(es: Seq<Element>, j: int)
    requires
        0 <= j < es.len(),
    ensures
        section_keys(es).contains(section_key(es[j])),
    decreases es.len(),
{
    let d = section_keys(es.drop_last());
    if j < es.len() - 1 {
        lemma_keys_contain(es.drop_last(), j);
        assert(es.drop_last()[j] == es[j]);
        if !d.contains(section_key(es.last())) {
            let w = choose|w: int| 0 <= w < d.len() && d[w] == section_key(es[j]);
            assert(d.push(section_key(es.last()))[w] == section_key(es[j]));
        }
    } else {
        if !d.contains(section_key(es.last())) {
            assert(d.push(section_key(es.last()))[d.len() as int] == section_key(es.last()));
        }
    }
}

pub(crate) proof fn lemma_members_contain(es: Seq<Element>, k: (Seq<char>, Seq<char>), j: int)
    requires
        0 <= j < es.len(),
        section_key(es[j]) == k,
    ensures
        section_members(es, k).contains(es[j]),
    decreases es.len(),
{
    let m = section_members(es.drop_last(), k);
    if j < es.len() - 1 {
        lemma_members_contain(es.drop_last(), k, j);
        assert(es.drop_last()[j] == es[j]);
        if section_key(es.last()) == k {
            let w = choose|w: int| 0 <= w < m.len() && m[w] == es[j];
            assert(m.push(es.last())[w] == es[j]);
        }
    } else {
        assert(m.push(es.last())[m.len() as int] == es.last());
    }
}

proof fn lemma_members_within(es: Seq<Element>, k: (Seq<char>, Seq<char>), t: int)
    requires
        0 <= t < section_members(es, k).len(),
    ensures
        es.contains(section_members(es, k)[t]),
    decreases es.len(),
{
    let m = section_members(es.drop_last(), k);
    if t < m.len() {
        lemma_members_within(es.drop_last(), k, t);
        let w = choose|w: int| 0 <= w < es.drop_last().len() && es.drop_last()[w] == m[t];
        assert(es[w] == m[t]);
    } else {
        assert(es[es.len() - 1] == es.last());
    }
}

proof fn lemma_keys_distinct(es: Seq<Element>)
    ensures
        section_keys(es).no_duplicates(),
        forall|g: int|
            0 <= g < section_keys(es).len() ==> exists|j: int|
                0 <= j < es.len() && section_key(es[j]) == #[trigger] section_keys(es)[g],
    decreases es.len(),
{
    if es.len() > 0 {
        lemma_keys_distinct(es.drop_last());
        let d = section_keys(es.drop_last());
        assert forall|g: int| 0 <= g < section_keys(es).len() implies exists|j: int|
            0 <= j < es.len() && section_key(es[j]) == #[trigger] section_keys(es)[g] by {
            if g < d.len() {
                let j = choose|j: int| 0 <= j < es.drop_last().len() && section_key(es.drop_last()[j]) == d[g];
                assert(es[j] == es.drop_last()[j]);
            } else {
                assert(section_key(es[es.len() - 1]) == section_keys(es)[g]);
            }
        }
    }
}

/// There is one diagram key per (document, section) pair of the registry:
/// the keys are distinct, every element's pair is among them, and every
/// key is the pair of some element.
pub proof fn lemma_one_diagram_per_section(es: Seq<Element>)
    ensures
        section_keys(es).no_duplicates(),
        forall|j: int| 0 <= j < es.len() ==> section_keys(es).contains(#[trigger] section_key(es[j])),
        forall|g: int|
            0 <= g < section_keys(es).len() ==> exists|j: int|
                0 <= j < es.len() && section_key(es[j]) == #[trigger] section_keys(es)[g],
{
    lemma_keys_distinct(es);
    assert forall|j: int| 0 <= j < es.len() implies section_keys(es).contains(#[trigger] section_key(es[j])) by {
        lemma_keys_contain(es, j);
    }
}

fn same_section(a: &Element, b: &Element) -> (r: bool)
    ensures
        r == (section_key(*a) == section_key(*b)),
{
    a.file_path == b.file_path && a.section == b.section
}

/// The diagram of each section of `es`, in order of first appearance, under
/// its key.
pub open spec fn section_entries(
    es: Seq<Element>,
    direction: Seq<char>,
    blob: Option<(Seq<char>, Seq<char>)>,
) -> Seq<(Seq<char>, Seq<char>)> {
    let keys = section_keys(es);
    Seq::new(
        keys.len(),
        |g: int| (diagram_key(keys[g]), section_diagram(es, section_members(es, keys[g]), direction, blob)),
    )
}

/// Whether no two entries of `m` have the same key.
pub open spec fn keys_distinct(m: Seq<(Seq<char>, Seq<char>)>) -> bool {
    forall|a: int, b: int| 0 <= a < m.len() && 0 <= b < m.len() && a != b ==> #[trigger] m[a].0 != #[trigger] m[b].0
}

/// `s` as a map from keys: an entry whose key an earlier entry has replaces
/// that earlier entry in its place; any other entry is added at the end.
pub open spec fn merge_keys(s: Seq<(Seq<char>, Seq<char>)>) -> Seq<(Seq<char>, Seq<char>)>
    decreases s.len(),
{
    if s.len() == 0 {
        seq![]
    } else {
        let m = merge_keys(s.drop_last());
        if exists|j: int| 0 <= j < m.len() && #[trigger] m[j].0 == s.last().0 {
            m.update(choose|j: int| 0 <= j < m.len() && #[trigger] m[j].0 == s.last().0, s.last())
        } else {
            m.push(s.last())
        }
    }
}

/// Merging by key leaves one entry per key.
pub proof fn lemma_merge_keys_distinct(s: Seq<(Seq<char>, Seq<char>)>)
    ensures
        keys_distinct(merge_keys(s)),
    decreases s.len(),
{
    if s.len() > 0 {
        lemma_merge_keys_distinct(s.drop_last());
        let m = merge_keys(s.drop_last());
        let r = merge_keys(s);
        if exists|j: int| 0 <= j < m.len() && #[trigger] m[j].0 == s.last().0 {
            let j = choose|j: int| 0 <= j < m.len() && #[trigger] m[j].0 == s.last().0;
            assert forall|a: int, b: int| 0 <= a < r.len() && 0 <= b < r.len() && a != b implies #[trigger] r[a].0
                != #[trigger] r[b].0 by {
                assert(r[a].0 == m[a].0 && r[b].0 == m[b].0);
            }
        } else {
            assert forall|a: int, b: int| 0 <= a < r.len() && 0 <= b < r.len() && a != b implies #[trigger] r[a].0
                != #[trigger] r[b].0 by {
                if a < m.len() && b < m.len() {
                    assert(r[a] == m[a] && r[b] == m[b]);
                } else if a < m.len() {
                    assert(r[a] == m[a]);
                    assert(r[b] == s.last());
                } else {
                    assert(r[b] == m[b]);
                    assert(r[a] == s.last());
                }
            }
        }
    }
}

/// Entries whose keys are already distinct are left as they are.
pub proof fn lemma_merge_keys_unchanged(s: Seq<(Seq<char>, Seq<char>)>)
    requires
        keys_distinct(s),
    ensures
        merge_keys(s) == s,
    decreases s.len(),
{
    if s.len() > 0 {
        let d = s.drop_last();
        assert(keys_distinct(d)) by {
            assert forall|a: int, b: int| 0 <= a < d.len() && 0 <= b < d.len() && a != b implies #[trigger] d[a].0
                != #[trigger] d[b].0 by {
                assert(d[a] == s[a] && d[b] == s[b]);
            }
        }
        lemma_merge_keys_unchanged(d);
        assert(!exists|j: int| 0 <= j < d.len() && #[trigger] d[j].0 == s.last().0) by {
            if exists|j: int| 0 <= j < d.len() && #[trigger] d[j].0 == s.last().0 {
                let j = choose|j: int| 0 <= j < d.len() && #[trigger] d[j].0 == s.last().0;
                assert(s[j].0 == s[s.len() - 1].0);
            }
        }
        assert(d.push(s.last()) =~= s);
    }
}

fn merge_by_key(entries: &Vec<(String, String)>) -> (r: Vec<(String, String)>)
    ensures
        pair_views(r@) == merge_keys(pair_views(entries@)),
{
    let ghost es = pair_views(entries@);
    let n = entries.len();
    let mut out: Vec<(String, String)> = Vec::new();
    let mut i: usize = 0;
    while i < n
        invariant
            i <= n,
            n == entries@.len(),
            es == pair_views(entries@),
            pair_views(out@) == merge_keys(es.take(i as int)),
        decreases n - i,
    {
        proof {
            lemma_merge_keys_distinct(es.take(i as int));
        }
        let ghost s = es.take(i + 1);
        assert(s.drop_last() =~= es.take(i as int));
        assert(s.last() == (entries@[i as int].0@, entries@[i as int].1@));
        let ghost mv = pair_views(out@);
        let m = out.len();
        let mut at: usize = m;
        let mut j: usize = 0;
        while j < m
            invariant
                j <= m,
                m == out@.len(),
                at <= m,
                i < n,
                n == entries@.len(),
                mv == pair_views(out@),
                at == m ==> forall|w: int| 0 <= w < j ==> mv[w].0 != entries@[i as int].0@,
                at < m ==> mv[at as int].0 == entries@[i as int].0@,
            decreases m - j,
        {
            if at == m && out[j].0 == entries[i].0 {
                at = j;
            }
            j = j + 1;
        }
        let entry = (entries[i].0.clone(), entries[i].1.clone());
        if at < m {
            assert(exists|w: int| 0 <= w < mv.len() && #[trigger] mv[w].0 == s.last().0);
            let ghost c = choose|w: int| 0 <= w < mv.len() && #[trigger] mv[w].0 == s.last().0;
            assert(c == at as int);
            out.set(at, entry);
            assert(pair_views(out@) =~= mv.update(at as int, s.last()));
        } else {
            assert(!exists|w: int| 0 <= w < mv.len() && #[trigger] mv[w].0 == s.last().0);
            out.push(entry);
            assert(pair_views(out@) =~= mv.push(s.last()));
        }
        i = i + 1;
    }
    assert(es.take(n as int) =~= es);
    out
}

/// Generates the diagrams of all sections: one diagram per distinct
/// (document, section) pair of the registry, in order of first appearance,
/// keyed `"{file_path}::{section}"`, each drawn from the elements of that
/// section in registry order. Fails when a link of some element is
/// unresolved. Sections whose keys coincide (only possible when a document
/// or section name holds `::`, see `lemma_diagram_keys_distinct`) share one
/// entry, which holds the diagram of the last of them.
#[verifier::spinoff_prover]
#[verifier::rlimit(30)]
pub fn generate_diagrams_by_section(
    registry: &ElementRegistry,
    direction: &str,
    diagrams_with_blobs: bool,
    git: &GitInfo,
) -> (r: Result<Vec<(String, String)>, ReqvireError>)
    ensures
        r is Ok <==> forall|j: int|
            0 <= j < registry.elements@.len() ==> (#[trigger] element_unresolved(registry.elements@[j])) is None,
        r matches Err(ReqvireError::UnresolvedLink(x)) ==> sections_unresolved(
            registry.elements@,
            section_keys(registry.elements@),
            section_keys(registry.elements@).len() as int,
        ) == Some(x@),
        r is Err ==> r matches Err(ReqvireError::UnresolvedLink(_)),
        r matches Ok(v) ==> pair_views(v@) == merge_keys(
            section_entries(
                registry.elements@,
                direction@,
                blob_base(diagrams_with_blobs, git.repo_root@, git.base_url@, git.commit_hash@),
            ),
        ),
{
    let ghost es = registry.elements@;
    let n = registry.elements.len();
    // The first element of each (document, section) pair, in order.
    let mut reps: Vec<usize> = Vec::new();
    let mut i: usize = 0;
    while i < n
        invariant
            i <= n,
            n == es.len(),
            es == registry.elements@,
            reps@.len() == section_keys(es.take(i as int)).len(),
            forall|g: int|
                0 <= g < reps@.len() ==> #[trigger] reps@[g] < i && section_key(es[reps@[g] as int])
                    == section_keys(es.take(i as int))[g],
        decreases n - i,
    {
        let ghost ks = section_keys(es.take(i as int));
        assert(es.take(i + 1).drop_last() =~= es.take(i as int));
        assert(es.take(i + 1).last() == es[i as int]);
        let m = reps.len();
        let mut g: usize = 0;
        let mut found = false;
        while g < m
            invariant
                g <= m,
                m == reps@.len(),
                i < n,
                n == es.len(),
                es == registry.elements@,
                ks == section_keys(es.take(i as int)),
                m == ks.len(),
                forall|w: int|
                    0 <= w < reps@.len() ==> #[trigger] reps@[w] < i && section_key(es[reps@[w] as int]) == ks[w],
                found ==> ks.contains(section_key(es[i as int])),
                !found ==> forall|w: int| 0 <= w < g ==> ks[w] != section_key(es[i as int]),
            decreases m - g,
        {
            if !found && same_section(&registry.elements[reps[g]], &registry.elements[i]) {
                found = true;
                assert(ks[g as int] == section_key(es[i as int]));
            }
            g = g + 1;
        }
        if !found {
            reps.push(i);
            assert(section_keys(es.take(i + 1)) == ks.push(section_key(es[i as int])));
        } else {
            assert(section_keys(es.take(i + 1)) == ks);
        }
        i = i + 1;
    }
    assert(es.take(n as int) =~= es);
    let ghost keys = section_keys(es);
    let ghost bb = blob_base(diagrams_with_blobs, git.repo_root@, git.base_url@, git.commit_hash@);
    let mut out: Vec<(String, String)> = Vec::new();
    let k = reps.len();
    let mut g: usize = 0;
    while g < k
        invariant
            g <= k,
            k == reps@.len(),
            k == keys.len(),
            n == es.len(),
            es == registry.elements@,
            keys == section_keys(es),
            bb == blob_base(diagrams_with_blobs, git.repo_root@, git.base_url@, git.commit_hash@),
            forall|w: int| 0 <= w < reps@.len() ==> #[trigger] reps@[w] < n && section_key(es[reps@[w] as int]) == keys[w],
            out@.len() == g,
            sections_unresolved(es, keys, g as int) is None,
            forall|w: int|
                0 <= w < g ==> (#[trigger] out@[w]).0@ == diagram_key(keys[w]) && out@[w].1@ == section_diagram(
                    es,
                    section_members(es, keys[w]),
                    direction@,
                    bb,
                ),
            forall|w: int, t: int|
                0 <= w < g && 0 <= t < section_members(es, keys[w]).len() ==> (#[trigger] element_unresolved(
                    section_members(es, keys[w])[t],
                )) is None,
        decreases k - g,
    {
        let rep = &registry.elements[reps[g]];
        let ghost key = keys[g as int];
        assert(section_key(*rep) == key);
        let mut members: Vec<&Element> = Vec::new();
        let mut j: usize = 0;
        while j < n
            invariant
                j <= n,
                n == es.len(),
                es == registry.elements@,
                section_key(*rep) == key,
                derefs(members@) == section_members(es.take(j as int), key),
            decreases n - j,
        {
            assert(es.take(j + 1).drop_last() =~= es.take(j as int));
            assert(es.take(j + 1).last() == es[j as int]);
            if same_section(&registry.elements[j], rep) {
                let ghost prev = members@;
                members.push(&registry.elements[j]);
                assert(derefs(members@) =~= derefs(prev).push(es[j as int]));
            }
            j = j + 1;
        }
        assert(es.take(n as int) =~= es);
        let res = generate_section_diagram(
            registry,
            rep.section.as_str(),
            members.as_slice(),
            rep.file_path.as_str(),
            direction,
            diagrams_with_blobs,
            git,
        );
        match res {
            Ok(d) => {
                proof {
                    lemma_section_unresolved_all(derefs(members@), members@.len() as int);
                }
                let mut key_text = rep.file_path.clone();
                key_text.append("::");
                key_text.append(rep.section.as_str());
                out.push((key_text, d));
            },
            Err(e) => {
                proof {
                    lemma_sections_unresolved_stays(es, keys, g + 1, k as int);
                    let ms = derefs(members@);
                    lemma_section_unresolved_all(ms, ms.len() as int);
                    if let ReqvireError::UnresolvedLink(x) = &e {
                        let t = choose|t: int| 0 <= t < ms.len() && element_unresolved(ms[t]) == Some(x@);
                        lemma_members_within(es, key, t);
                        let w = choose|w: int| 0 <= w < es.len() && es[w] == ms[t];
                        assert(element_unresolved(es[w]) == Some(x@));
                    }
                }
                return Err(e);
            },
        }
        g = g + 1;
    }
    proof {
        assert forall|j: int| 0 <= j < es.len() implies (#[trigger] element_unresolved(es[j])) is None by {
            lemma_keys_contain(es, j);
            let w = choose|w: int| 0 <= w < keys.len() && keys[w] == section_key(es[j]);
            lemma_members_contain(es, keys[w], j);
            let t = choose|t: int|
                0 <= t < section_members(es, keys[w]).len() && section_members(es, keys[w])[t] == es[j];
            assert(element_unresolved(section_members(es, keys[w])[t]) is None);
        }
    }
    assert(pair_views(out@) =~= section_entries(es, direction@, bb));
    Ok(merge_by_key(&out))
}

/// Whether `x` occurs in `t`.
pub open spec fn holds_text(t: Seq<char>, x: Seq<char>) -> bool {
    exists|i: int| 0 <= i && i + x.len() <= t.len() && #[trigger] t.subrange(i, i + x.len()) == x
}

/// The line that gives node `id` the style class `class`.
pub open spec fn class_line(id: Seq<char>, class: Seq<char>) -> Seq<char> {
    "  class "@ + id + " "@ + class + ";\n"@
}

proof fn lemma_holds_middle(p: Seq<char>, x: Seq<char>, q: Seq<char>, r: Seq<char>)
    ensures
        holds_text(p + x + q + r, x),
{
    let t = p + x + q + r;
    assert(t.subrange(p.len() as int, (p.len() + x.len()) as int) =~= x);
}

proof fn lemma_node_block_class(id: Seq<char>, label: Seq<char>, class: Seq<char>, click: Seq<char>, rest: Seq<char>)
    ensures
        holds_text(node_block(id, label, class, click) + rest, class_line(id, class)),
{
    let p = "  "@ + id + "[\""@ + label + "\"];\n"@;
    let q = "  click "@ + id + " \""@ + click + "\";\n"@;
    assert(node_block(id, label, class, click) + rest =~= p + class_line(id, class) + q + rest);
    lemma_holds_middle(p, class_line(id, class), q, rest);
}

/// The element a relation points at, if it points at one.
pub open spec fn target_element(r: Relation) -> Option<Seq<char>> {
    match r.target.link {
        LinkType::Identifier(id) => Some(id@),
        _ => None,
    }
}

/// Every node drawn for an element carries the style class of its type:
/// `requirement` for a system or a user requirement, `verification` for a
/// verification of any kind, `default` otherwise.
pub proof fn lemma_element_node_class(
    reg: Seq<Element>,
    e: Element,
    inc: Seq<Seq<char>>,
    blob: Option<(Seq<char>, Seq<char>)>,
)
    requires
        !inc.contains(e.identifier@),
    ensures
        e.element_type is Requirement ==> holds_text(
            element_part(reg, e, inc, blob).0,
            class_line(e.node.node_id@, "requirement"@),
        ),
        e.element_type is Verification ==> holds_text(
            element_part(reg, e, inc, blob).0,
            class_line(e.node.node_id@, "verification"@),
        ),
        e.element_type is Other ==> holds_text(
            element_part(reg, e, inc, blob).0,
            class_line(e.node.node_id@, "default"@),
        ),
{
    let h = element_head(e, inc, blob);
    let rest = relations_part(reg, e, e.relations@.len() as int, h.1, blob).0;
    lemma_node_block_class(
        e.node.node_id@,
        replace_all(e.name@, "\""@, "&quot;"@),
        class_name(e.element_type),
        click_link(e.node, e.identifier@, blob),
        rest,
    );
}

/// The node drawn for a relation's target carries the style class of the
/// element it points at (`requirement`, `verification`, or `default` for
/// any other type or an element the registry does not hold); a web address
/// or a path is styled `default`.
pub proof fn lemma_target_node_class(
    reg: Seq<Element>,
    e: Element,
    r: Relation,
    inc: Seq<Seq<char>>,
    blob: Option<(Seq<char>, Seq<char>)>,
)
    requires
        !r.is_opposite,
    ensures
        target_element(r) matches Some(id) && !inc.contains(id) && lookup(reg, id) is Some && lookup(
            reg,
            id,
        ).unwrap().element_type is Requirement ==> holds_text(
            relation_part(reg, e, r, inc, blob).0,
            class_line(r.target.node.node_id@, "requirement"@),
        ),
        target_element(r) matches Some(id) && !inc.contains(id) && lookup(reg, id) is Some && lookup(
            reg,
            id,
        ).unwrap().element_type is Verification ==> holds_text(
            relation_part(reg, e, r, inc, blob).0,
            class_line(r.target.node.node_id@, "verification"@),
        ),
        target_element(r) matches Some(id) && !inc.contains(id) && lookup(reg, id) is Some && lookup(
            reg,
            id,
        ).unwrap().element_type is Other ==> holds_text(
            relation_part(reg, e, r, inc, blob).0,
            class_line(r.target.node.node_id@, "default"@),
        ),
        target_element(r) matches Some(id) && !inc.contains(id) && lookup(reg, id) is None ==> holds_text(
            relation_part(reg, e, r, inc, blob).0,
            class_line(r.target.node.node_id@, "default"@),
        ),
        target_element(r) is None ==> holds_text(
            relation_part(reg, e, r, inc, blob).0,
            class_line(r.target.node.node_id@, "default"@),
        ),
{
    let t = r.target;
    let tid = t.node.node_id@;
    let edge = relation_edge(e.node.node_id@, r);
    match t.link {
        LinkType::Identifier(id) => {
            if !inc.contains(id@) {
                lemma_node_block_class(tid, t.text@, target_class(reg, id@), click_link(t.node, id@, blob), edge);
            }
        },
        LinkType::ExternalUrl(url) => {
            lemma_node_block_class(tid, t.text@, "default"@, url@, edge);
        },
        LinkType::InternalPath(p) => {
            lemma_node_block_class(tid, t.text@, "default"@, click_link(t.node, p@, blob), edge);
        },
    }
}

/// A drawn relation ends with its edge: from the target to the element for
/// a relation type drawn forward, from the element to the target for one
/// drawn backward, each with the type's arrow and label, and from the
/// element to the target labelled `relates to` for a type with no drawing
/// rule.
pub proof fn lemma_relation_edge_direction(
    reg: Seq<Element>,
    e: Element,
    r: Relation,
    inc: Seq<Seq<char>>,
    blob: Option<(Seq<char>, Seq<char>)>,
)
    requires
        !r.is_opposite,
    ensures
        r.relation_type.info is Some && r.relation_type.info.unwrap().direction == RelationDirection::Forward ==> holds_text(
            relation_part(reg, e, r, inc, blob).0,
            "  "@ + r.target.node.node_id@ + " "@ + r.relation_type.info.unwrap().arrow@ + "|"@ + r.relation_type.info.unwrap().label@ + "| "@ + e.node.node_id@
                + ";\n"@,
        ),
        r.relation_type.info is Some && r.relation_type.info.unwrap().direction == RelationDirection::Backward ==> holds_text(
            relation_part(reg, e, r, inc, blob).0,
            "  "@ + e.node.node_id@ + " "@ + r.relation_type.info.unwrap().arrow@ + "|"@ + r.relation_type.info.unwrap().label@ + "| "@ + r.target.node.node_id@
                + ";\n"@,
        ),
        r.relation_type.info is None ==> holds_text(
            relation_part(reg, e, r, inc, blob).0,
            "  "@ + e.node.node_id@ + " -->|relates to| "@ + r.target.node.node_id@ + ";\n"@,
        ),
{
    let t = target_node(reg, r, inc, blob).0;
    let edge = relation_edge(e.node.node_id@, r);
    let i = t.len() as int;
    assert((t + edge).subrange(i, i + edge.len()) =~= edge);
}

/// The relations of `rs` that are not opposite ones, in order.
pub open spec fn drawn_relations(rs: Seq<Relation>) -> Seq<Relation>
    decreases rs.len(),
{
    if rs.len() == 0 {
        seq![]
    } else {
        let m = drawn_relations(rs.drop_last());
        if rs.last().is_opposite {
            m
        } else {
            m.push(rs.last())
        }
    }
}

/// The text and included identifiers of drawing the relations `rs` for
/// the element `e`.
spec fn relations_text(
    reg: Seq<Element>,
    e: Element,
    rs: Seq<Relation>,
    inc: Seq<Seq<char>>,
    blob: Option<(Seq<char>, Seq<char>)>,
) -> (Seq<char>, Seq<Seq<char>>)
    decreases rs.len(),
{
    if rs.len() == 0 {
        (seq![], inc)
    } else {
        let (t, inc1) = relations_text(reg, e, rs.drop_last(), inc, blob);
        let (t2, inc2) = relation_part(reg, e, rs.last(), inc1, blob);
        (t + t2, inc2)
    }
}

/// The first unresolved target among the relations `rs`.
spec fn unresolved_in(rs: Seq<Relation>) -> Option<Seq<char>>
    decreases rs.len(),
{
    if rs.len() == 0 {
        None
    } else {
        match unresolved_in(rs.drop_last()) {
            Some(x) => Some(x),
            None => relation_unresolved(rs.last()),
        }
    }
}

proof fn lemma_relations_text_prefix(
    reg: Seq<Element>,
    e: Element,
    n: int,
    inc: Seq<Seq<char>>,
    blob: Option<(Seq<char>, Seq<char>)>,
)
    requires
        0 <= n <= e.relations@.len(),
    ensures
        relations_part(reg, e, n, inc, blob) == relations_text(reg, e, e.relations@.take(n), inc, blob),
        first_unresolved(e.relations@, n) == unresolved_in(e.relations@.take(n)),
    decreases n,
{
    if n > 0 {
        lemma_relations_text_prefix(reg, e, n - 1, inc, blob);
        assert(e.relations@.take(n).drop_last() =~= e.relations@.take(n - 1));
        assert(e.relations@.take(n).last() == e.relations@[n - 1]);
    } else {
        assert(e.relations@.take(0) =~= Seq::<Relation>::empty());
    }
}

proof fn lemma_relations_text_drawn(
    reg: Seq<Element>,
    e: Element,
    e2: Element,
    rs: Seq<Relation>,
    inc: Seq<Seq<char>>,
    blob: Option<(Seq<char>, Seq<char>)>,
)
    requires
        e2.node.node_id@ == e.node.node_id@,
    ensures
        relations_text(reg, e, rs, inc, blob) == relations_text(reg, e2, drawn_relations(rs), inc, blob),
        unresolved_in(rs) == unresolved_in(drawn_relations(rs)),
    decreases rs.len(),
{
    if rs.len() > 0 {
        let dl = rs.drop_last();
        lemma_relations_text_drawn(reg, e, e2, dl, inc, blob);
        let (t, inc1) = relations_text(reg, e, dl, inc, blob);
        if rs.last().is_opposite {
            assert(t + Seq::<char>::empty() =~= t);
        } else {
            let d = drawn_relations(rs);
            assert(d.drop_last() =~= drawn_relations(dl));
            assert(d.last() == rs.last());
        }
    }
}

proof fn lemma_drawn_app(a: Seq<Relation>, b: Seq<Relation>)
    ensures
        drawn_relations(a + b) == drawn_relations(a) + drawn_relations(b),
    decreases b.len(),
{
    if b.len() == 0 {
        assert(a + b =~= a);
        assert(drawn_relations(a) + drawn_relations(b) =~= drawn_relations(a));
    } else {
        lemma_drawn_app(a, b.drop_last());
        assert((a + b).drop_last() =~= a + b.drop_last());
        assert((a + b).last() == b.last());
        if !b.last().is_opposite {
            assert(drawn_relations(a) + drawn_relations(b) =~= (drawn_relations(a) + drawn_relations(
                b.drop_last(),
            )).push(b.last()));
        }
    }
}

proof fn lemma_first_unresolved_none(rs: Seq<Relation>, i: int)
    requires
        0 <= i <= rs.len(),
        first_unresolved(rs, i) is None,
    ensures
        forall|j: int| 0 <= j < i ==> (#[trigger] relation_unresolved(rs[j])) is None,
    decreases i,
{
    if i > 0 {
        lemma_first_unresolved_none(rs, i - 1);
    }
}

proof fn lemma_drawn_resolved(s: Seq<Relation>)
    requires
        forall|j: int| 0 <= j < s.len() ==> (#[trigger] relation_unresolved(s[j])) is None,
    ensures
        forall|q: int| 0 <= q < drawn_relations(s).len() ==> (#[trigger] relation_unresolved(drawn_relations(s)[q])) is None,
    decreases s.len(),
{
    if s.len() > 0 {
        let d = s.drop_last();
        assert forall|j: int| 0 <= j < d.len() implies (#[trigger] relation_unresolved(d[j])) is None by {
            assert(d[j] == s[j]);
        }
        lemma_drawn_resolved(d);
        let m = drawn_relations(d);
        assert forall|q: int| 0 <= q < drawn_relations(s).len() implies (#[trigger] relation_unresolved(
            drawn_relations(s)[q],
        )) is None by {
            if q < m.len() {
                assert(drawn_relations(s)[q] == m[q]);
            } else {
                assert(drawn_relations(s)[q] == s[s.len() - 1]);
            }
        }
    }
}

/// The first unresolved relation of `rs` is at `i`, and that of its drawn
/// relations at `i2`: the drawn relations before `i2` are those before `i`.
proof fn lemma_drawn_failure(rs: Seq<Relation>, i: int, i2: int)
    requires
        fails_at(rs, i),
        fails_at(drawn_relations(rs), i2),
    ensures
        drawn_relations(rs).take(i2) == drawn_relations(rs.take(i)),
{
    let d = drawn_relations(rs);
    let a = rs.take(i);
    let b = rs.skip(i);
    assert(rs =~= a + b);
    lemma_drawn_app(a, b);
    let da = drawn_relations(a);
    lemma_first_unresolved_none(rs, i);
    assert forall|j: int| 0 <= j < a.len() implies (#[trigger] relation_unresolved(a[j])) is None by {
        assert(a[j] == rs[j]);
    }
    lemma_drawn_resolved(a);
    // The drawn relations of `b` start with the failing one.
    let b1 = b.drop_first();
    assert(b =~= seq![rs[i]] + b1);
    lemma_drawn_app(seq![rs[i]], b1);
    assert(!rs[i].is_opposite);
    let one = seq![rs[i]];
    assert(one.drop_last() =~= Seq::<Relation>::empty());
    assert(one.last() == rs[i]);
    assert(drawn_relations(one.drop_last()) =~= Seq::<Relation>::empty());
    assert(drawn_relations(one) =~= Seq::<Relation>::empty().push(rs[i]));
    assert(drawn_relations(one) =~= one);
    let p = da.len() as int;
    assert(d[p] == rs[i]);
    assert forall|q: int| 0 <= q < p implies (#[trigger] relation_unresolved(d[q])) is None by {
        assert(d[q] == da[q]);
    }
    lemma_first_unresolved_none(d, i2);
    if i2 < p {
        assert(relation_unresolved(d[i2]) is None);
    }
    if i2 > p {
        assert(relation_unresolved(d[p]) is None);
    }
    assert(i2 == p);
    assert(d.take(i2) =~= da);
}

/// Opposite relations add nothing to a diagram: an element and the same
/// element with its opposite relations removed are drawn with the same text
/// and the same included identifiers, and have the same unresolved link;
/// where that link fails, the text drawn before it is the same too.
pub proof fn lemma_opposite_relations_add_nothing(
    reg: Seq<Element>,
    e: Element,
    e2: Element,
    inc: Seq<Seq<char>>,
    blob: Option<(Seq<char>, Seq<char>)>,
)
    requires
        e2.identifier == e.identifier,
        e2.name == e.name,
        e2.element_type == e.element_type,
        e2.node == e.node,
        e2.relations@ == drawn_relations(e.relations@),
    ensures
        element_part(reg, e2, inc, blob) == element_part(reg, e, inc, blob),
        element_unresolved(e2) == element_unresolved(e),
        element_head(e2, inc, blob) == element_head(e, inc, blob),
        forall|i: int, i2: int|
            #[trigger] fails_at(e.relations@, i) && #[trigger] fails_at(e2.relations@, i2) ==> relations_part(
                reg,
                e2,
                i2,
                element_head(e2, inc, blob).1,
                blob,
            ) == relations_part(reg, e, i, element_head(e, inc, blob).1, blob),
{
    let h = element_head(e, inc, blob);
    assert forall|i: int, i2: int|
        #[trigger] fails_at(e.relations@, i) && #[trigger] fails_at(e2.relations@, i2) implies relations_part(
            reg,
            e2,
            i2,
            h.1,
            blob,
        ) == relations_part(reg, e, i, h.1, blob) by {
        let rs = e.relations@;
        lemma_drawn_failure(rs, i, i2);
        lemma_relations_text_prefix(reg, e, i, h.1, blob);
        lemma_relations_text_prefix(reg, e2, i2, h.1, blob);
        lemma_relations_text_drawn(reg, e, e2, rs.take(i), h.1, blob);
    }
    assert(element_head(e2, inc, blob) == h);
    lemma_relations_text_prefix(reg, e, e.relations@.len() as int, h.1, blob);
    lemma_relations_text_prefix(reg, e2, e2.relations@.len() as int, h.1, blob);
    assert(e.relations@.take(e.relations@.len() as int) =~= e.relations@);
    assert(e2.relations@.take(e2.relations@.len() as int) =~= e2.relations@);
    lemma_relations_text_drawn(reg, e, e2, e.relations@, h.1, blob);
}

} // verus!
