use reqvire::diagrams::{
    add_element_to_diagram, generate_diagrams_by_section, generate_section_diagram, GitInfo,
};
use reqvire::error::ReqvireError;
use reqvire::model::{
    Element, ElementRegistry, ElementType, LinkType, NodeRef, Relation, RelationDirection,
    RelationInfo, RelationTarget, RelationType, RequirementType, VerificationType,
};

fn node(id: &str, rel: Option<&str>, repo: Option<&str>) -> NodeRef {
    NodeRef {
        node_id: id.to_string(),
        relative_link: rel.map(|s| s.to_string()),
        repo_path: repo.map(|s| s.to_string()),
    }
}

fn rtype(name: &str, info: Option<(RelationDirection, &str, &str)>) -> RelationType {
    RelationType {
        name: name.to_string(),
        info: info.map(|(direction, arrow, label)| RelationInfo {
            direction,
            arrow: arrow.to_string(),
            label: label.to_string(),
        }),
        is_verification: false,
        is_satisfaction: false,
    }
}

fn relation(t: RelationType, text: &str, link: LinkType, n: NodeRef, opposite: bool) -> Relation {
    Relation {
        relation_type: t,
        target: RelationTarget { text: text.to_string(), link, node: n },
        is_opposite: opposite,
    }
}

fn element(
    id: &str,
    name: &str,
    section: &str,
    file: &str,
    t: ElementType,
    relations: Vec<Relation>,
    n: NodeRef,
) -> Element {
    Element {
        identifier: id.to_string(),
        name: name.to_string(),
        section: section.to_string(),
        file_path: file.to_string(),
        element_type: t,
        content: String::new(),
        relations,
        node: n,
    }
}

fn registry() -> ElementRegistry {
    let r1 = element(
        "specs/Reqs.md#r1",
        "Say \"hi\"",
        "Reqs",
        "specs/Reqs.md",
        ElementType::Requirement(RequirementType::System),
        vec![
            relation(
                rtype("derivedFrom", Some((RelationDirection::Backward, "-.->", "deriveReqT"))),
                "Other.md/X",
                LinkType::Identifier("specs/Other.md#x".to_string()),
                node("bb", Some("Other.md#x"), Some("specs/Other.md#x")),
                false,
            ),
            relation(
                rtype("satisfiedBy", Some((RelationDirection::Forward, "-->", "satisfies"))),
                "E",
                LinkType::ExternalUrl("https://e.x".to_string()),
                node("cc", None, None),
                false,
            ),
            relation(
                rtype("derive", None),
                "Y",
                LinkType::Identifier("specs/Y.md#y".to_string()),
                node("dd", None, None),
                true,
            ),
        ],
        node("aa", Some("Reqs.md#r1"), Some("specs/Reqs.md#r1")),
    );
    let x = element(
        "specs/Other.md#x",
        "X",
        "Tests",
        "specs/Other.md",
        ElementType::Verification(VerificationType::Test),
        vec![],
        node("bb", Some("Other.md#x"), None),
    );
    ElementRegistry { elements: vec![r1, x] }
}

const HEADER_LR: &str = "```mermaid\ngraph LR;\n  %% Graph styling\n  classDef requirement fill:#f9d6d6,stroke:#f55f5f,stroke-width:1px;\n  classDef verification fill:#d6f9d6,stroke:#5fd75f,stroke-width:1px;\n  classDef externalLink fill:#d0e0ff,stroke:#3080ff,stroke-width:1px;\n  classDef default fill:#f5f5f5,stroke:#333333,stroke-width:1px;\n\n";

fn no_git() -> GitInfo {
    GitInfo { repo_root: String::new(), base_url: String::new(), commit_hash: "HEAD".to_string() }
}

fn expected_reqs_body(click_aa: &str) -> String {
    format!(
        "  aa[\"Say &quot;hi&quot;\"];\n  class aa requirement;\n  click aa \"{}\";\n  bb[\"Other.md/X\"];\n  class bb verification;\n  click bb \"Other.md#x\";\n  aa -.->|deriveReqT| bb;\n  cc[\"E\"];\n  class cc default;\n  click cc \"https://e.x\";\n  cc -->|satisfies| aa;\n",
        click_aa
    )
}

#[test]
fn section_diagram_lists_nodes_edges_and_classes() {
    let reg = registry();
    let elems = vec![&reg.elements[0]];
    let d = generate_section_diagram(&reg, "Reqs", &elems, "specs/Reqs.md", "LR", false, &no_git())
        .unwrap();
    assert_eq!(d, format!("{}{}```", HEADER_LR, expected_reqs_body("Reqs.md#r1")));
}

#[test]
fn section_diagram_links_to_blobs_when_git_is_known() {
    let reg = registry();
    let elems = vec![&reg.elements[0]];
    let git = GitInfo {
        repo_root: "/repo".to_string(),
        base_url: "https://github.com/o/r".to_string(),
        commit_hash: "abc".to_string(),
    };
    let d = generate_section_diagram(&reg, "Reqs", &elems, "specs/Reqs.md", "LR", true, &git).unwrap();
    let body = expected_reqs_body("https://github.com/o/r/blob/abc/specs/Reqs.md#r1").replace(
        "click bb \"Other.md#x\"",
        "click bb \"https://github.com/o/r/blob/abc/specs/Other.md#x\"",
    );
    assert_eq!(d, format!("{}{}```", HEADER_LR, body));
    // Without a repository root the links stay relative.
    let partial = GitInfo { repo_root: String::new(), ..git };
    let d2 = generate_section_diagram(&reg, "Reqs", &elems, "specs/Reqs.md", "LR", true, &partial)
        .unwrap();
    assert_eq!(d2, format!("{}{}```", HEADER_LR, expected_reqs_body("Reqs.md#r1")));
}

#[test]
fn repeated_identifiers_get_one_node() {
    let reg = registry();
    let mut diagram = String::new();
    let mut included = vec!["specs/Reqs.md#r1".to_string(), "specs/Other.md#x".to_string()];
    add_element_to_diagram(
        &reg,
        &mut diagram,
        &reg.elements[0],
        &mut included,
        "specs/Reqs.md",
        false,
        "",
        "",
        "HEAD",
    )
    .unwrap();
    assert_eq!(
        diagram,
        "  aa -.->|deriveReqT| bb;\n  cc[\"E\"];\n  class cc default;\n  click cc \"https://e.x\";\n  cc -->|satisfies| aa;\n"
    );
    assert_eq!(included.len(), 2);
}

#[test]
fn unknown_relation_type_falls_back_to_relates_to() {
    let e = element(
        "a.md#a",
        "A",
        "S",
        "a.md",
        ElementType::Other("note".to_string()),
        vec![relation(
            rtype("mystery", None),
            "p.rs",
            LinkType::InternalPath("src/p.rs".to_string()),
            node("pp", Some("../src/p.rs"), None),
            false,
        )],
        node("n1", Some("a.md#a"), None),
    );
    let reg = ElementRegistry { elements: vec![e] };
    let elems = vec![&reg.elements[0]];
    let d = generate_section_diagram(&reg, "S", &elems, "a.md", "TD", false, &no_git()).unwrap();
    let expected = "  n1[\"A\"];\n  class n1 default;\n  click n1 \"a.md#a\";\n  pp[\"p.rs\"];\n  class pp default;\n  click pp \"../src/p.rs\";\n  n1 -->|relates to| pp;\n";
    assert!(d.starts_with("```mermaid\ngraph TD;\n"));
    assert!(d.ends_with(&format!("\n\n{}```", expected)));
}

#[test]
fn unresolved_link_is_an_error() {
    let mut reg = registry();
    reg.elements[0].relations[0].target.node.relative_link = None;
    let elems = vec![&reg.elements[0]];
    match generate_section_diagram(&reg, "Reqs", &elems, "specs/Reqs.md", "LR", false, &no_git()) {
        Err(ReqvireError::UnresolvedLink(x)) => assert_eq!(x, "specs/Other.md#x"),
        _ => panic!("expected an unresolved link"),
    }
    reg.elements[1].node.relative_link = None;
    match generate_diagrams_by_section(&reg, "LR", false, &no_git()) {
        Err(ReqvireError::UnresolvedLink(_)) => {}
        _ => panic!("expected an unresolved link"),
    }
}

#[test]
fn diagrams_by_section_one_per_section() {
    let reg = registry();
    let ds = generate_diagrams_by_section(&reg, "LR", false, &no_git()).unwrap();
    assert_eq!(ds.len(), 2);
    assert_eq!(ds[0].0, "specs/Reqs.md::Reqs");
    assert_eq!(ds[0].1, format!("{}{}```", HEADER_LR, expected_reqs_body("Reqs.md#r1")));
    assert_eq!(ds[1].0, "specs/Other.md::Tests");
    assert_eq!(
        ds[1].1,
        format!(
            "{}  bb[\"X\"];\n  class bb verification;\n  click bb \"Other.md#x\";\n```",
            HEADER_LR
        )
    );
}

#[test]
fn git_info_fallbacks() {
    let g = GitInfo::from_lookups(None, None, None);
    assert_eq!(g.repo_root, "");
    assert_eq!(g.base_url, "");
    assert_eq!(g.commit_hash, "HEAD");
    let g = GitInfo::from_lookups(Some("/r".into()), Some("u".into()), Some("c".into()));
    assert_eq!((g.repo_root.as_str(), g.base_url.as_str(), g.commit_hash.as_str()), ("/r", "u", "c"));
}
