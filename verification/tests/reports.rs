use reqvire::error::ReqvireError;
use reqvire::filters::Filters;
use reqvire::model::{
    Element, ElementRegistry, ElementType, LinkType, NodeRef, Relation, RelationTarget, RelationType,
    RequirementType, VerificationType,
};
use reqvire::reports::{build_summary, escape, generate_coverage_report, print_summary_cypher};

fn no_node() -> NodeRef {
    NodeRef { node_id: String::new(), relative_link: None, repo_path: None }
}

fn rel(name: &str, verif: bool, satis: bool, link: LinkType) -> Relation {
    Relation {
        relation_type: RelationType {
            name: name.to_string(),
            info: None,
            is_verification: verif,
            is_satisfaction: satis,
        },
        target: RelationTarget { text: String::new(), link, node: no_node() },
        is_opposite: false,
    }
}

fn el(id: &str, name: &str, section: &str, file: &str, t: ElementType, content: &str, rels: Vec<Relation>) -> Element {
    Element {
        identifier: id.to_string(),
        name: name.to_string(),
        section: section.to_string(),
        file_path: file.to_string(),
        element_type: t,
        content: content.to_string(),
        relations: rels,
        node: no_node(),
    }
}

fn model() -> ElementRegistry {
    ElementRegistry {
        elements: vec![
            el(
                "a.md#r1",
                "Login",
                "Reqs",
                "a.md",
                ElementType::Requirement(RequirementType::System),
                "must \"log\"\nin",
                vec![rel("verifiedBy", true, false, LinkType::Identifier("t.md#v1".to_string()))],
            ),
            el(
                "a.md#r2",
                "Logout",
                "Reqs",
                "a.md",
                ElementType::Requirement(RequirementType::User),
                "",
                vec![rel("satisfiedBy", false, true, LinkType::InternalPath("src/x.rs".to_string()))],
            ),
            el(
                "t.md#v1",
                "Login test",
                "Tests",
                "t.md",
                ElementType::Verification(VerificationType::Default),
                "",
                vec![rel("satisfiedBy", false, true, LinkType::InternalPath("tests/login.sh".to_string()))],
            ),
            el(
                "t.md#v2",
                "Review",
                "Tests",
                "t.md",
                ElementType::Verification(VerificationType::Inspection),
                "",
                vec![],
            ),
            el("a.md#n", "Note", "Other", "a.md", ElementType::Other("note".to_string()), "", vec![]),
        ],
    }
}

fn all() -> Filters {
    Filters::new(None, None, None, None, None, false, false).ok().unwrap()
}

#[test]
fn escape_cypher_strings() {
    assert_eq!(escape("a\\b\"c\nd\re```f````"), "a\\\\b\\\"c\\nde~~~f~~~`");
    assert_eq!(escape(""), "");
}

#[test]
fn summary_counts_and_grouping() {
    let reg = model();
    let s = build_summary(&reg, &all());
    let c = &s.global_counters;
    assert_eq!(c.total_elements, 5);
    assert_eq!(c.total_requirements_system, 1);
    assert_eq!(c.total_requirements_user, 1);
    assert_eq!(c.total_verifications_test, 1);
    assert_eq!(c.total_verifications_analysis, 0);
    assert_eq!(c.total_verifications_inspection, 1);
    assert_eq!(c.total_verifications_demonstration, 0);
    assert_eq!(c.requirements_not_verified, 1);
    assert_eq!(c.requirements_not_satisfied, 1);
    assert_eq!(s.files.len(), 2);
    assert_eq!(s.files[0].file, "a.md");
    let secs: Vec<&str> = s.files[0].sections.iter().map(|x| x.section.as_str()).collect();
    assert_eq!(secs, vec!["Reqs", "Other"]);
    let r1 = &s.files[0].sections[0].elements[0];
    assert_eq!(r1.identifier, "a.md#r1");
    assert_eq!(r1.element_type, "requirement");
    assert_eq!(r1.verified_relations_count, 1);
    assert_eq!(r1.satisfied_relations_count, 0);
    assert_eq!(r1.relations[0].relation_type, "verifiedBy");
    assert_eq!(r1.relations[0].target.target, "t.md#v1");
    assert_eq!(r1.relations[0].target.link_type, "identifier");
    let v1 = &s.files[1].sections[0].elements[0];
    assert_eq!(v1.element_type, "verification");
    assert_eq!(v1.verified_relations_count, 0);
    assert_eq!(v1.satisfied_relations_count, 0);
    assert_eq!(v1.relations[0].target.link_type, "internal-path");
}

#[test]
fn filters_select_elements() {
    let reg = model();
    let f = Filters::new(Some("a*.md"), None, None, None, None, false, false).ok().unwrap();
    assert_eq!(build_summary(&reg, &f).global_counters.total_elements, 3);
    let f = Filters::new(None, Some("^Log"), None, None, None, false, false).ok().unwrap();
    assert_eq!(build_summary(&reg, &f).global_counters.total_elements, 3);
    let f = Filters::new(None, None, Some("Te*"), None, None, false, false).ok().unwrap();
    assert_eq!(build_summary(&reg, &f).global_counters.total_elements, 2);
    let f = Filters::new(None, None, None, Some("User-Requirement"), None, false, false).ok().unwrap();
    let s = build_summary(&reg, &f);
    assert_eq!(s.global_counters.total_elements, 1);
    assert_eq!(s.files[0].sections[0].elements[0].identifier, "a.md#r2");
    let f = Filters::new(None, None, None, Some("note"), None, false, false).ok().unwrap();
    assert_eq!(build_summary(&reg, &f).global_counters.total_elements, 1);
    let f = Filters::new(None, None, None, None, Some("log"), false, false).ok().unwrap();
    assert_eq!(build_summary(&reg, &f).global_counters.total_elements, 1);
    let f = Filters::new(None, None, None, None, None, true, true).ok().unwrap();
    assert_eq!(build_summary(&reg, &f).global_counters.total_elements, 2);
    assert!(f.matches(&reg.elements[3]));
    assert!(!f.matches(&reg.elements[0]));
}

#[test]
fn invalid_patterns_are_errors() {
    match Filters::new(Some("a[b"), None, None, None, None, false, false) {
        Err(ReqvireError::InvalidGlob(m)) => assert!(!m.is_empty()),
        _ => panic!("expected an invalid glob"),
    }
    match Filters::new(None, Some("("), None, None, None, false, false) {
        Err(ReqvireError::InvalidRegex(m)) => assert!(!m.is_empty()),
        _ => panic!("expected an invalid regex"),
    }
    match Filters::new(None, None, Some("{a"), None, None, false, false) {
        Err(ReqvireError::InvalidGlob(_)) => {}
        _ => panic!("expected an invalid glob"),
    }
    match Filters::new(None, None, None, None, Some("[z-a]"), false, false) {
        Err(ReqvireError::InvalidRegex(_)) => {}
        _ => panic!("expected an invalid regex"),
    }
    // The document glob is checked first.
    match Filters::new(Some("a[b"), Some("("), None, None, None, false, false) {
        Err(ReqvireError::InvalidGlob(_)) => {}
        _ => panic!("expected an invalid glob"),
    }
}

#[test]
fn cypher_statements() {
    let reg = ElementRegistry {
        elements: vec![el(
            "a.md#r1",
            "Login",
            "Reqs",
            "a.md",
            ElementType::Requirement(RequirementType::User),
            "say \"hi\"",
            vec![rel("verifiedBy", true, false, LinkType::Identifier("t.md#v1".to_string()))],
        )],
    };
    let s = build_summary(&reg, &all());
    let text = print_summary_cypher(&s);
    assert_eq!(
        text,
        "CREATE (:Element:user_requirement { id: \"a.md#r1\", name: \"Login\", file: \"a.md\", section: \"Reqs\", element_type: \"user-requirement\", content: \"say \\\"hi\\\"\" });\nMATCH (a:Element {id: \"a.md#r1\"}), (b:Element {id: \"t.md#v1\"}) CREATE (a)-[:VERIFIEDBY {type: \"identifier\"}]->(b);"
    );
    let empty = ElementRegistry { elements: vec![] };
    assert_eq!(print_summary_cypher(&build_summary(&empty, &all())), "");
}

#[test]
fn coverage_report() {
    let reg = model();
    let r = generate_coverage_report(&reg);
    assert_eq!(r.summary.total_verifications, 2);
    assert_eq!(r.summary.total_satisfied, 1);
    assert_eq!(r.summary.total_unsatisfied, 1);
    assert_eq!(r.summary.verification_types.test, 1);
    assert_eq!(r.summary.verification_types.inspection, 1);
    assert_eq!(r.summary.verification_types.analysis, 0);
    assert_eq!(r.summary.verification_types.demonstration, 0);
    assert_eq!(r.satisfied_verifications.files.len(), 1);
    let f = &r.satisfied_verifications.files[0];
    assert_eq!(f.file, "t.md");
    assert_eq!(f.verifications[0].identifier, "t.md#v1");
    assert_eq!(f.verifications[0].verification_type, "verification");
    assert_eq!(f.verifications[0].satisfied_by, vec!["tests/login.sh".to_string()]);
    assert_eq!(r.unsatisfied_verifications.files[0].verifications[0].name, "Review");
    assert_eq!(r.unsatisfied_verifications.files[0].verifications[0].verification_type, "inspection-verification");
}

#[test]
fn element_type_names() {
    let t = ElementType::from_metadata("system-requirement");
    assert!(t.same(&ElementType::Requirement(RequirementType::System)));
    assert_eq!(t.as_str(), "requirement");
    let t = ElementType::from_metadata("custom");
    assert_eq!(t.as_str(), "custom");
    assert!(!t.same(&ElementType::Other("other".to_string())));
    assert!(reg_lookup());
}

fn reg_lookup() -> bool {
    let reg = model();
    reg.get_element("t.md#v2").map(|e| e.name.as_str()) == Some("Review") && reg.get_element("zz").is_none()
}

#[test]
fn oversized_glob_is_an_invalid_glob() {
    // It parses, but the matcher it compiles to exceeds the size limit.
    let huge = "*a?".repeat(400_000);
    match Filters::new(Some(huge.as_str()), None, None, None, None, false, false) {
        Err(ReqvireError::InvalidGlob(m)) => assert!(!m.is_empty()),
        _ => panic!("expected an invalid glob"),
    }
}
