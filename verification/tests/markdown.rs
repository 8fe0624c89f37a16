use reqvire::markdown::replace_section_diagram;
use reqvire::text::is_whitespace;
use reqvire::updates::{apply_section_diagrams, plan_diagram_updates, split_section_key};

#[test]
fn replaces_existing_mermaid_block() {
    let content = "# Doc\n\n## Reqs\n\n```mermaid\ngraph LR;\n  a --> b;\n```\n\n### R1\ntext\n";
    let out = replace_section_diagram(content, "Reqs", "```mermaid\nNEW\n```");
    assert_eq!(out, "# Doc\n\n## Reqs\n```mermaid\nNEW\n```\n\n### R1\ntext");
}

#[test]
fn inserts_diagram_when_section_has_none() {
    let content = "## Reqs\n\n\n### R1\n";
    let out = replace_section_diagram(content, "Reqs", "D");
    assert_eq!(out, "## Reqs\nD\n### R1");
}

#[test]
fn other_sections_untouched_and_crlf_lines_normalized() {
    let content = "## Other\r\n```mermaid\r\nX\r\n```\r\nend";
    let out = replace_section_diagram(content, "Reqs", "D");
    assert_eq!(out, "## Other\n```mermaid\nX\n```\nend");
}

#[test]
fn header_matches_after_trimming_and_block_runs_to_end_when_unclosed() {
    let content = "  ## Reqs  \n```mermaid\nold\n";
    let out = replace_section_diagram(content, "Reqs", "D");
    assert_eq!(out, "  ## Reqs  \nD");
}

#[test]
fn replacing_twice_gives_the_same_document() {
    let content = "## Reqs\n\n```mermaid\nold\n```\n\ntext";
    let d = "```mermaid\ngraph LR;\n  a --> b;\n```";
    let once = replace_section_diagram(content, "Reqs", d);
    let twice = replace_section_diagram(&once, "Reqs", d);
    assert_eq!(once, twice);
}

#[test]
fn whitespace_agrees_with_std() {
    for c in (0u32..0x11000).filter_map(char::from_u32) {
        assert_eq!(is_whitespace(c), c.is_whitespace(), "{:?}", c);
    }
}

#[test]
fn section_keys_split_in_two() {
    assert_eq!(
        split_section_key("specs/A.md::Reqs"),
        Some(("specs/A.md".to_string(), "Reqs".to_string()))
    );
    assert_eq!(split_section_key("a::"), Some(("a".to_string(), String::new())));
    assert_eq!(split_section_key("a::b::c"), None);
    assert_eq!(split_section_key("nothing"), None);
    assert_eq!(split_section_key("a:::b"), Some(("a".to_string(), ":b".to_string())));
}

#[test]
fn updates_grouped_by_document() {
    let ds = vec![
        ("a.md::S1".to_string(), "D1".to_string()),
        ("b.md::T".to_string(), "D2".to_string()),
        ("bad".to_string(), "D3".to_string()),
        ("a.md::S2".to_string(), "D4".to_string()),
    ];
    let plan = plan_diagram_updates(&ds);
    assert_eq!(plan.len(), 2);
    assert_eq!(plan[0].0, "a.md");
    assert_eq!(
        plan[0].1,
        vec![("S1".to_string(), "D1".to_string()), ("S2".to_string(), "D4".to_string())]
    );
    assert_eq!(plan[1].0, "b.md");
    assert_eq!(plan[1].1, vec![("T".to_string(), "D2".to_string())]);
}

#[test]
fn applies_each_section_in_turn() {
    let content = "## S1\n\n## S2\nx";
    let ups = vec![("S1".to_string(), "D1".to_string()), ("S2".to_string(), "D2".to_string())];
    assert_eq!(apply_section_diagrams(content, &ups), "## S1\nD1\n## S2\nD2\nx");
}
