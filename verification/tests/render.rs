use reqvire::filters::Filters;
use reqvire::model::{
    Element, ElementRegistry, ElementType, LinkType, NodeRef, Relation, RelationTarget, RelationType,
    RequirementType, VerificationType,
};
use reqvire::render::{push_decimal, summary_text};
use reqvire::reports::{build_summary, generate_coverage_report};

fn no_node() -> NodeRef {
    NodeRef { node_id: String::new(), relative_link: None, repo_path: None }
}

fn rel(name: &str, verif: bool, satis: bool, target: &str) -> Relation {
    Relation {
        relation_type: RelationType {
            name: name.to_string(),
            info: None,
            is_verification: verif,
            is_satisfaction: satis,
        },
        target: RelationTarget {
            text: String::new(),
            link: LinkType::Identifier(target.to_string()),
            node: no_node(),
        },
        is_opposite: false,
    }
}

fn el(id: &str, name: &str, t: ElementType, content: &str, rels: Vec<Relation>) -> Element {
    Element {
        identifier: id.to_string(),
        name: name.to_string(),
        section: "S".to_string(),
        file_path: "f.md".to_string(),
        element_type: t,
        content: content.to_string(),
        relations: rels,
        node: no_node(),
    }
}

#[test]
fn decimal_numbers() {
    for n in [0usize, 7, 10, 99, 1234567890, usize::MAX] {
        let mut s = String::from("x");
        push_decimal(&mut s, n);
        assert_eq!(s, format!("x{}", n));
    }
}

#[test]
fn summary_as_text() {
    let reg = ElementRegistry {
        elements: vec![
            el(
                "f.md#a",
                "A",
                ElementType::Requirement(RequirementType::System),
                "line \"one\"\n",
                vec![rel("verifiedBy", true, false, "f.md#t")],
            ),
            el("f.md#t", "T", ElementType::Verification(VerificationType::Analysis), "", vec![]),
        ],
    };
    let f = Filters::new(None, None, None, None, None, false, false).ok().unwrap();
    let text = summary_text(&build_summary(&reg, &f));
    let expected = [
        "--- MBSE Model summary ---\n",
        "📂 File: f.md\n",
        "  📖 Section: S\n",
        "    🔹 Element: f.md#a\n",
        "      - Name: A\n",
        "      - Section: S\n",
        "      - File: f.md\n",
        "      - Type: requirement\n",
        "      - Content: \"line \\\"one\\\"\\n\"\n",
        "      - Verified relations count: 1\n",
        "      - Satisfied relations count: 0\n",
        "      - Relations:\n",
        "        ↪ verifiedBy: f.md#t (identifier)\n",
        "\n",
        "    🔹 Element: f.md#t\n",
        "      - Name: T\n",
        "      - Section: S\n",
        "      - File: f.md\n",
        "      - Type: analysis-verification\n",
        "      - Content: \"\"\n",
        "      - Verified relations count: 0\n",
        "      - Satisfied relations count: 0\n",
        "      - No relations.\n",
        "\n",
        "------------------------------------\n",
        "Total elements: 2\n",
        "Total System Requirements: 1\n",
        "Total User Requirements: 0\n",
        "Total Verifications (Test): 0\n",
        "TotalVerifications (Analysis): 1\n",
        "TotalVerifications (Inspection): 0\n",
        "TotalVerifications (Demonstration): 0\n",
        "Requirements not verified: 0\n",
        "Requirements not satisfied: 1\n"
    ]
    .concat();
    assert_eq!(text, expected);
}

#[test]
fn coverage_as_text() {
    let reg = ElementRegistry {
        elements: vec![
            el(
                "f.md#t1",
                "T1",
                ElementType::Verification(VerificationType::Test),
                "",
                vec![rel("satisfiedBy", false, true, "a.sh"), rel("satisfiedBy", false, true, "b.sh")],
            ),
            el("f.md#t2", "T2", ElementType::Verification(VerificationType::Demonstration), "", vec![]),
        ],
    };
    let r = generate_coverage_report(&reg);
    let text = r.report_text("50.0");
    let expected = [
        "=== Verification Coverage Report ===\n\n",
        "Summary:\n",
        "  Total Verifications: 2\n",
        "  Satisfied: 1 (50.0%)\n",
        "  Unsatisfied: 1\n",
        "\n",
        "Verification Types:\n",
        "  Test: 1\n",
        "  Analysis: 0\n",
        "  Inspection: 0\n",
        "  Demonstration: 1\n",
        "\n",
        "Satisfied Verifications:\n",
        "  📂 f.md\n",
        "    ✅ T1 (test-verification)\n",
        "       Satisfied by: a.sh, b.sh\n",
        "\n",
        "Unsatisfied Verifications:\n",
        "  📂 f.md\n",
        "    ❌ T2 (demonstration-verification)\n",
        "\n"
    ]
    .concat();
    assert_eq!(text, expected);
    let empty = ElementRegistry { elements: vec![] };
    let r = generate_coverage_report(&empty);
    assert!(r.report_text("0.0").ends_with("  Demonstration: 0\n\n"));
}
