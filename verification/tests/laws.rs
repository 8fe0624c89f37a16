use reqvire::diagrams::{generate_diagrams_by_section, generate_section_diagram, GitInfo};
use reqvire::filters::Filters;
use reqvire::markdown::replace_section_diagram;
use reqvire::model::{
    Element, ElementRegistry, ElementType, LinkType, NodeRef, Relation, RelationDirection,
    RelationInfo, RelationTarget, RelationType, RequirementType, VerificationType,
};
use reqvire::reports::{build_summary, escape, generate_coverage_report, print_summary_cypher};
use reqvire::updates::split_section_key;

fn node(id: &str) -> NodeRef {
    NodeRef { node_id: id.to_string(), relative_link: Some(format!("#{}", id)), repo_path: None }
}

fn verifies(target: &str, node_id: &str) -> Relation {
    Relation {
        relation_type: RelationType {
            name: "verify".to_string(),
            info: Some(RelationInfo {
                direction: RelationDirection::Backward,
                arrow: "-.->".to_string(),
                label: "verifies".to_string(),
            }),
            is_verification: true,
            is_satisfaction: false,
        },
        target: RelationTarget {
            text: target.to_string(),
            link: LinkType::Identifier(target.to_string()),
            node: node(node_id),
        },
        is_opposite: false,
    }
}

fn el(id: &str, section: &str, file: &str, t: ElementType, rels: Vec<Relation>, node_id: &str) -> Element {
    Element {
        identifier: id.to_string(),
        name: id.to_string(),
        section: section.to_string(),
        file_path: file.to_string(),
        element_type: t,
        content: "c\r\n```x".to_string(),
        relations: rels,
        node: node(node_id),
    }
}

fn model() -> ElementRegistry {
    ElementRegistry {
        elements: vec![
            el("r1", "Reqs", "specs/a.md", ElementType::Requirement(RequirementType::System), vec![], "n1"),
            el("t1", "Tests", "specs/b.md", ElementType::Verification(VerificationType::Test), vec![verifies("r1", "n1")], "n2"),
            el("t2", "Tests", "specs/b.md", ElementType::Verification(VerificationType::Analysis), vec![verifies("r1", "n1")], "n3"),
            el("r2", "Reqs", "specs/a.md", ElementType::Requirement(RequirementType::User), vec![], "n4"),
        ],
    }
}

fn git() -> GitInfo {
    GitInfo::from_lookups(None, None, None)
}

#[test]
fn escaped_text_is_one_line() {
    let e = escape("a\r\nb\nc\r");
    assert!(!e.contains('\n') && !e.contains('\r'));
    assert_eq!(e, "a\\nb\\nc");
}

#[test]
fn diagram_keys_split_back() {
    let ds = generate_diagrams_by_section(&model(), "LR", false, &git()).unwrap();
    let parts: Vec<(String, String)> = ds.iter().map(|(k, _)| split_section_key(k).unwrap()).collect();
    assert_eq!(
        parts,
        vec![
            ("specs/a.md".to_string(), "Reqs".to_string()),
            ("specs/b.md".to_string(), "Tests".to_string())
        ]
    );
}

#[test]
fn target_shared_by_two_elements_gets_one_node() {
    let reg = model();
    let elems = vec![&reg.elements[1], &reg.elements[2]];
    let d = generate_section_diagram(&reg, "Tests", &elems, "specs/b.md", "LR", false, &git()).unwrap();
    assert_eq!(d.matches("  n1[\"r1\"];").count(), 1);
    assert_eq!(d.matches("-.->|verifies| n1;").count(), 2);
}

#[test]
fn no_filters_keep_everything_and_each_element_is_listed_once() {
    let reg = model();
    let f = Filters::new(None, None, None, None, None, false, false).ok().unwrap();
    assert!(reg.elements.iter().all(|e| f.matches(e)));
    let s = build_summary(&reg, &f);
    let listed: usize = s.files.iter().flat_map(|f| f.sections.iter()).map(|x| x.elements.len()).sum();
    assert_eq!(listed, s.global_counters.total_elements);
    assert_eq!(listed, 4);
    let c = &s.global_counters;
    assert!(c.requirements_not_verified <= c.total_requirements_system + c.total_requirements_user);
    assert_eq!(c.requirements_not_verified, 2);
}

#[test]
fn coverage_totals_add_up() {
    let r = generate_coverage_report(&model());
    let s = &r.summary;
    assert_eq!(s.total_satisfied + s.total_unsatisfied, s.total_verifications);
    let t = &s.verification_types;
    assert_eq!(t.test + t.analysis + t.inspection + t.demonstration, s.total_verifications);
    assert_eq!(s.total_verifications, 2);
}

#[test]
fn regenerating_a_generated_diagram_changes_nothing() {
    let reg = model();
    let ds = generate_diagrams_by_section(&reg, "LR", false, &git()).unwrap();
    let doc = "# B\n\n## Tests\n\n```mermaid\nold\n```\n\n### t1\nbody";
    let once = replace_section_diagram(doc, "Tests", &ds[1].1);
    let twice = replace_section_diagram(&once, "Tests", &ds[1].1);
    assert_eq!(once, twice);
    assert!(once.starts_with("# B\n\n## Tests\n```mermaid\ngraph LR;\n"));
}

#[test]
fn element_first_drawn_as_a_target_keeps_its_one_node() {
    // r1's node is declared by t1's relation; r1 itself adds no second one.
    let reg = model();
    let elems = vec![&reg.elements[1], &reg.elements[0]];
    let d = generate_section_diagram(&reg, "Mixed", &elems, "specs/b.md", "LR", false, &git()).unwrap();
    assert_eq!(d.lines().filter(|l| l.starts_with("  n1[\"")).count(), 1);
    assert_eq!(d.lines().filter(|l| l.starts_with("  n2[\"")).count(), 1);
}

#[test]
fn opposite_relations_add_nothing() {
    let reg = model();
    let mut back = verifies("t2", "n3");
    back.is_opposite = true;
    let with = el("t1", "Tests", "specs/b.md", ElementType::Verification(VerificationType::Test), vec![back, verifies("r1", "n1")], "n2");
    let without = el("t1", "Tests", "specs/b.md", ElementType::Verification(VerificationType::Test), vec![verifies("r1", "n1")], "n2");
    let a = generate_section_diagram(&reg, "Tests", &vec![&with], "specs/b.md", "LR", false, &git()).unwrap();
    let b = generate_section_diagram(&reg, "Tests", &vec![&without], "specs/b.md", "LR", false, &git()).unwrap();
    assert_eq!(a, b);
}

#[test]
fn other_elements_leave_coverage_unchanged() {
    let mut reg = model();
    let before = generate_coverage_report(&reg);
    reg.elements.push(el("x", "Other", "specs/c.md", ElementType::Other("note".to_string()), vec![], "n9"));
    reg.elements.insert(0, el("r3", "Reqs", "specs/a.md", ElementType::Requirement(RequirementType::User), vec![], "n8"));
    let after = generate_coverage_report(&reg);
    assert_eq!(before.summary.total_verifications, after.summary.total_verifications);
    assert_eq!(before.summary.total_satisfied, after.summary.total_satisfied);
    assert_eq!(before.summary.verification_types.test, after.summary.verification_types.test);
    assert_eq!(before.summary.verification_types.analysis, after.summary.verification_types.analysis);
    assert_eq!(before.unsatisfied_verifications.files.len(), after.unsatisfied_verifications.files.len());
    assert_eq!(
        before.unsatisfied_verifications.files[0].verifications.len(),
        after.unsatisfied_verifications.files[0].verifications.len()
    );
}

fn unescape(s: &str) -> String {
    let cs: Vec<char> = s.chars().collect();
    let mut out = String::new();
    let mut i = 0;
    while i < cs.len() {
        if cs[i] == '\\' && i + 1 < cs.len() && (cs[i + 1] == '\\' || cs[i + 1] == '"' || cs[i + 1] == 'n') {
            out.push(if cs[i + 1] == 'n' { '\n' } else { cs[i + 1] });
            i += 2;
        } else {
            out.push(cs[i]);
            i += 1;
        }
    }
    out
}

#[test]
fn escaping_reads_back() {
    let s = "say \"hi\"\\n\nC:\\dir `x` ``y``";
    assert_eq!(unescape(&escape(s)), s);
}

#[test]
fn diagram_keys_are_distinct() {
    let ds = generate_diagrams_by_section(&model(), "LR", false, &git()).unwrap();
    assert_ne!(ds[0].0, ds[1].0);
}

#[test]
fn cypher_has_a_statement_per_element_and_relation() {
    let reg = model();
    let f = Filters::new(None, None, None, None, None, false, false).ok().unwrap();
    let text = print_summary_cypher(&build_summary(&reg, &f));
    assert_eq!(text.lines().count(), 4 + 2);
    assert_eq!(text.lines().filter(|l| l.starts_with("CREATE")).count(), 4);
}

#[test]
fn sections_with_one_key_share_one_entry() {
    let reg = ElementRegistry {
        elements: vec![
            el("p", "b", "a:", ElementType::Requirement(RequirementType::System), vec![], "np"),
            el("q", ":b", "a", ElementType::Requirement(RequirementType::System), vec![], "nq"),
        ],
    };
    let ds = generate_diagrams_by_section(&reg, "TD", false, &git()).unwrap();
    assert_eq!(ds.len(), 1);
    assert_eq!(ds[0].0, "a:::b");
    assert!(ds[0].1.contains("  nq[\"q\"];"));
    assert!(!ds[0].1.contains("  np[\"p\"];"));
}

#[test]
fn regenerating_with_a_crlf_diagram_or_a_blank_document_changes_nothing() {
    let d = "```mermaid\r\ngraph LR;\r\n```\r";
    let doc = "## Tests\n\n```mermaid\nold\n```\ntext";
    let once = replace_section_diagram(doc, "Tests", d);
    assert_eq!(replace_section_diagram(&once, "Tests", d), once);
    let once = replace_section_diagram("## Tests", "Tests", d);
    assert_eq!(replace_section_diagram(&once, "Tests", d), once);
    let once = replace_section_diagram("\n", "Tests", d);
    assert_eq!(once, "");
    assert_eq!(replace_section_diagram(&once, "Tests", d), once);
}
