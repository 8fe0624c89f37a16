//! The plain-text renderings of a model summary and of a coverage report.
use vstd::prelude::*;
use crate::outside::{debug_str, debug_string};
use crate::reports::{
    CoverageReport, ElementSummary, FileSummary, FileVerifications, GlobalCounters, RelationSummary,
    SectionSummary, Summary, VerificationDetails, VerificationsByFile,
};
use crate::text::push_char;
use crate::diagrams::holds_text;

verus! {

/// The decimal digit `d` (for `d < 10`).
pub open spec fn digit(d: nat) -> char {
    if d == 0 {
        '0'
    } else if d == 1 {
        '1'
    } else if d == 2 {
        '2'
    } else if d == 3 {
        '3'
    } else if d == 4 {
        '4'
    } else if d == 5 {
        '5'
    } else if d == 6 {
        '6'
    } else if d == 7 {
        '7'
    } else if d == 8 {
        '8'
    } else {
        '9'
    }
}

/// The decimal representation of `n`, as `{}` writes an integer.
pub open spec fn decimal(n: nat) -> Seq<char>
    decreases n,
{
    if n < 10 {
        seq![digit(n)]
    } else {
        decimal(n / 10).push(digit(n % 10))
    }
}

fn digit_char(d: usize) -> (c: char)
    requires
        d < 10,
    ensures
        c == digit(d as nat),
{
    if d == 0 {
        '0'
    } else if d == 1 {
        '1'
    } else if d == 2 {
        '2'
    } else if d == 3 {
        '3'
    } else if d == 4 {
        '4'
    } else if d == 5 {
        '5'
    } else if d == 6 {
        '6'
    } else if d == 7 {
        '7'
    } else if d == 8 {
        '8'
    } else {
        '9'
    }
}

/// Appends the decimal representation of `n`.
pub fn push_decimal(s: &mut String, n: usize)
    ensures
        final(s)@ == old(s)@ + decimal(n as nat),
    decreases n,
{
    if n >= 10 {
        push_decimal(s, n / 10);
    }
    push_char(s, digit_char(n % 10));
    assert(final(s)@ =~= old(s)@ + decimal(n as nat));
}

/// `s` followed by a line feed.
pub open spec fn line(s: Seq<char>) -> Seq<char> {
    s.push('\n')
}

/// The line of a relation.
pub open spec fn relation_line(r: RelationSummary) -> Seq<char> {
    line("        ↪ "@ + r.relation_type@ + ": "@ + r.target.target@ + " ("@ + r.target.link_type@ + ")"@)
}

/// The lines of the first `n` relations of `e`.
pub open spec fn relation_lines(e: ElementSummary, n: int) -> Seq<char>
    decreases n,
{
    if n <= 0 {
        seq![]
    } else {
        relation_lines(e, n - 1) + relation_line(e.relations@[n - 1])
    }
}

/// The lines of an element, ending with an empty line.
pub open spec fn element_lines(e: ElementSummary) -> Seq<char> {
    line("    🔹 Element: "@ + e.identifier@) + line("      - Name: "@ + e.name@) + line(
        "      - Section: "@ + e.section@,
    ) + line("      - File: "@ + e.file@) + line("      - Type: "@ + e.element_type@) + line(
        "      - Content: "@ + debug_str(e.content@),
    ) + line("      - Verified relations count: "@ + decimal(e.verified_relations_count as nat)) + line(
        "      - Satisfied relations count: "@ + decimal(e.satisfied_relations_count as nat),
    ) + if e.relations@.len() == 0 {
        line("      - No relations."@)
    } else {
        line("      - Relations:"@) + relation_lines(e, e.relations@.len() as int)
    } + line(seq![])
}

/// The lines of the first `n` elements of a section.
pub open spec fn section_element_lines(s: SectionSummary, n: int) -> Seq<char>
    decreases n,
{
    if n <= 0 {
        seq![]
    } else {
        section_element_lines(s, n - 1) + element_lines(s.elements@[n - 1])
    }
}

/// The lines of a section.
pub open spec fn section_lines(s: SectionSummary) -> Seq<char> {
    line("  📖 Section: "@ + s.section@) + section_element_lines(s, s.elements@.len() as int)
}

/// The lines of the first `n` sections of a document.
pub open spec fn file_section_lines(f: FileSummary, n: int) -> Seq<char>
    decreases n,
{
    if n <= 0 {
        seq![]
    } else {
        file_section_lines(f, n - 1) + section_lines(f.sections@[n - 1])
    }
}

/// The lines of the first `n` documents.
pub open spec fn files_lines(files: Seq<FileSummary>, n: int) -> Seq<char>
    decreases n,
{
    if n <= 0 {
        seq![]
    } else {
        files_lines(files, n - 1) + line("📂 File: "@ + files[n - 1].file@) + file_section_lines(
            files[n - 1],
            files[n - 1].sections@.len() as int,
        )
    }
}

/// The lines of the global counters.
pub open spec fn counter_lines(c: GlobalCounters) -> Seq<char> {
    line("------------------------------------"@) + line("Total elements: "@ + decimal(c.total_elements as nat))
        + line("Total System Requirements: "@ + decimal(c.total_requirements_system as nat)) + line(
        "Total User Requirements: "@ + decimal(c.total_requirements_user as nat),
    ) + line("Total Verifications (Test): "@ + decimal(c.total_verifications_test as nat)) + line(
        "TotalVerifications (Analysis): "@ + decimal(c.total_verifications_analysis as nat),
    ) + line("TotalVerifications (Inspection): "@ + decimal(c.total_verifications_inspection as nat)) + line(
        "TotalVerifications (Demonstration): "@ + decimal(c.total_verifications_demonstration as nat),
    ) + line("Requirements not verified: "@ + decimal(c.requirements_not_verified as nat)) + line(
        "Requirements not satisfied: "@ + decimal(c.requirements_not_satisfied as nat),
    )
}

/// The text of a summary.
pub open spec fn summary_lines(s: Summary) -> Seq<char> {
    line("--- MBSE Model summary ---"@) + files_lines(s.files@, s.files@.len() as int) + counter_lines(
        s.global_counters,
    )
}

proof fn lemma_holds_in(t: Seq<char>, u: Seq<char>, k: int, x: Seq<char>)
    requires
        0 <= k,
        k + u.len() <= t.len(),
        t.subrange(k, k + u.len()) == u,
        holds_text(u, x),
    ensures
        holds_text(t, x),
{
    let i = choose|i: int| 0 <= i && i + x.len() <= u.len() && #[trigger] u.subrange(i, i + x.len()) == x;
    let w = k + i;
    assert(t.subrange(w, w + x.len()) =~= u.subrange(i, i + x.len()));
    assert(0 <= w && w + x.len() <= t.len() && t.subrange(w, w + x.len()) == x);
}

proof fn lemma_holds_self(x: Seq<char>)
    ensures
        holds_text(x, x),
{
    let z: int = 0;
    assert(x.subrange(z, z + x.len()) =~= x);
}

/// `x` occurs in `a + u + b` wherever it occurs in `u`.
proof fn lemma_holds_within(a: Seq<char>, u: Seq<char>, b: Seq<char>, x: Seq<char>)
    requires
        holds_text(u, x),
    ensures
        holds_text(a + u + b, x),
{
    let t = a + u + b;
    assert(t.subrange(a.len() as int, (a.len() + u.len()) as int) =~= u);
    lemma_holds_in(t, u, a.len() as int, x);
}

proof fn lemma_section_elements_hold(sec: SectionSummary, n: int, k: int)
    requires
        0 <= k < n <= sec.elements@.len(),
    ensures
        holds_text(section_element_lines(sec, n), element_lines(sec.elements@[k])),
    decreases n,
{
    let x = element_lines(sec.elements@[k]);
    let prev = section_element_lines(sec, n - 1);
    let el = element_lines(sec.elements@[n - 1]);
    if k == n - 1 {
        lemma_holds_end(prev, x);
    } else {
        lemma_section_elements_hold(sec, n - 1, k);
        lemma_holds_extend(prev, x, el);
    }
}

proof fn lemma_holds_trans(t: Seq<char>, u: Seq<char>, x: Seq<char>)
    requires
        holds_text(t, u),
        holds_text(u, x),
    ensures
        holds_text(t, x),
{
    let w = choose|w: int| 0 <= w && w + u.len() <= t.len() && #[trigger] t.subrange(w, w + u.len()) == u;
    lemma_holds_in(t, u, w, x);
}

proof fn lemma_file_sections_hold(f: FileSummary, n: int, j: int)
    requires
        0 <= j < n <= f.sections@.len(),
    ensures
        holds_text(file_section_lines(f, n), section_lines(f.sections@[j])),
    decreases n,
{
    let x = section_lines(f.sections@[j]);
    let prev = file_section_lines(f, n - 1);
    let cur = section_lines(f.sections@[n - 1]);
    if j == n - 1 {
        lemma_holds_self(x);
        lemma_holds_within(prev, x, seq![], x);
        assert(prev + x + Seq::<char>::empty() =~= prev + cur);
    } else {
        lemma_file_sections_hold(f, n - 1, j);
        lemma_holds_within(seq![], prev, cur, x);
        assert(Seq::<char>::empty() + prev + cur =~= prev + cur);
    }
}

proof fn lemma_files_hold(files: Seq<FileSummary>, n: int, i: int, x: Seq<char>)
    requires
        0 <= i < n <= files.len(),
        holds_text(line("📂 File: "@ + files[i].file@) + file_section_lines(files[i], files[i].sections@.len() as int), x),
    ensures
        holds_text(files_lines(files, n), x),
    decreases n,
{
    let prev = files_lines(files, n - 1);
    let cur = line("📂 File: "@ + files[n - 1].file@) + file_section_lines(files[n - 1], files[n - 1].sections@.len() as int);
    assert(files_lines(files, n) =~= prev + cur);
    if i == n - 1 {
        lemma_holds_within(prev, cur, seq![], x);
        assert(prev + cur + Seq::<char>::empty() =~= prev + cur);
    } else {
        lemma_files_hold(files, n - 1, i, x);
        lemma_holds_within(seq![], prev, cur, x);
        assert(Seq::<char>::empty() + prev + cur =~= prev + cur);
    }
}

/// The text of a summary lists every document, every section of each
/// document with, under its own section line, each of that section's
/// elements: the text holds the line of each document, and the lines of
/// each section, which start with that section's line and hold the lines
/// of each of its elements (see `lemma_element_text_fields`), starting
/// with the element's identifier line.
pub proof fn lemma_summary_text_lists(s: Summary, i: int, j: int, k: int)
    requires
        0 <= i < s.files@.len(),
        0 <= j < s.files@[i].sections@.len(),
        0 <= k < s.files@[i].sections@[j].elements@.len(),
    ensures
        holds_text(summary_lines(s), line("📂 File: "@ + s.files@[i].file@)),
        holds_text(summary_lines(s), section_lines(s.files@[i].sections@[j])),
        section_lines(s.files@[i].sections@[j]).subrange(
            0,
            line("  📖 Section: "@ + s.files@[i].sections@[j].section@).len() as int,
        ) == line("  📖 Section: "@ + s.files@[i].sections@[j].section@),
        holds_text(
            section_lines(s.files@[i].sections@[j]),
            line("    🔹 Element: "@ + s.files@[i].sections@[j].elements@[k].identifier@),
        ),
        holds_text(summary_lines(s), line("    🔹 Element: "@ + s.files@[i].sections@[j].elements@[k].identifier@)),
        holds_text(section_lines(s.files@[i].sections@[j]), element_lines(s.files@[i].sections@[j].elements@[k])),
{
    let f = s.files@[i];
    let sec = f.sections@[j];
    let files = s.files@;
    let title = line("--- MBSE Model summary ---"@);
    let fl = files_lines(files, files.len() as int);
    let counters = counter_lines(s.global_counters);
    assert(summary_lines(s) =~= title + fl + counters);
    let fline = line("📂 File: "@ + f.file@);
    let fsl = file_section_lines(f, f.sections@.len() as int);
    // The document's line.
    lemma_holds_self(fline);
    lemma_holds_within(seq![], fline, fsl, fline);
    assert(Seq::<char>::empty() + fline + fsl =~= fline + fsl);
    lemma_files_hold(files, files.len() as int, i, fline);
    lemma_holds_within(title, fl, counters, fline);
    // The section's lines.
    let sl = section_lines(sec);
    lemma_file_sections_hold(f, f.sections@.len() as int, j);
    lemma_holds_within(fline, fsl, seq![], sl);
    assert(fline + fsl + Seq::<char>::empty() =~= fline + fsl);
    lemma_files_hold(files, files.len() as int, i, sl);
    lemma_holds_within(title, fl, counters, sl);
    // The element's line, within the section's.
    let hdr = line("  📖 Section: "@ + sec.section@);
    let sel = section_element_lines(sec, sec.elements@.len() as int);
    assert(sl =~= hdr + sel);
    assert(sl.subrange(0, hdr.len() as int) =~= hdr);
    let e = sec.elements@[k];
    let el = element_lines(e);
    let x = line("    🔹 Element: "@ + e.identifier@);
    lemma_section_elements_hold(sec, sec.elements@.len() as int, k);
    lemma_holds_within(hdr, sel, seq![], el);
    assert(hdr + sel + Seq::<char>::empty() =~= sl);
    lemma_holds_trans(summary_lines(s), sl, el);
    lemma_element_text_fields(e);
    lemma_holds_trans(sl, el, x);
    lemma_holds_trans(summary_lines(s), el, x);
}

/// The lines of an element give its identifier, name, section, document,
/// type, content (as `{:?}` writes it) and both relation counts, each on
/// its own line under its own label.
pub proof fn lemma_element_text_fields(e: ElementSummary)
    ensures
        holds_text(element_lines(e), line("    🔹 Element: "@ + e.identifier@)),
        holds_text(element_lines(e), line("      - Name: "@ + e.name@)),
        holds_text(element_lines(e), line("      - Section: "@ + e.section@)),
        holds_text(element_lines(e), line("      - File: "@ + e.file@)),
        holds_text(element_lines(e), line("      - Type: "@ + e.element_type@)),
        holds_text(element_lines(e), line("      - Content: "@ + debug_str(e.content@))),
        holds_text(element_lines(e), line("      - Verified relations count: "@ + decimal(e.verified_relations_count as nat))),
        holds_text(element_lines(e), line("      - Satisfied relations count: "@ + decimal(e.satisfied_relations_count as nat))),
{
    let l0 = line("    🔹 Element: "@ + e.identifier@);
    let l1 = line("      - Name: "@ + e.name@);
    let l2 = line("      - Section: "@ + e.section@);
    let l3 = line("      - File: "@ + e.file@);
    let l4 = line("      - Type: "@ + e.element_type@);
    let l5 = line("      - Content: "@ + debug_str(e.content@));
    let l6 = line("      - Verified relations count: "@ + decimal(e.verified_relations_count as nat));
    let l7 = line("      - Satisfied relations count: "@ + decimal(e.satisfied_relations_count as nat));
    let tail = if e.relations@.len() == 0 {
        line("      - No relations."@)
    } else {
        line("      - Relations:"@) + relation_lines(e, e.relations@.len() as int)
    } + line(seq![]);
    assert(element_lines(e) == l0 + l1 + l2 + l3 + l4 + l5 + l6 + l7 + tail);
    {
        lemma_holds_self(l0);
        lemma_holds_extend(l0, l0, l1);
        lemma_holds_extend(l0 + l1, l0, l2);
        lemma_holds_extend(l0 + l1 + l2, l0, l3);
        lemma_holds_extend(l0 + l1 + l2 + l3, l0, l4);
        lemma_holds_extend(l0 + l1 + l2 + l3 + l4, l0, l5);
        lemma_holds_extend(l0 + l1 + l2 + l3 + l4 + l5, l0, l6);
        lemma_holds_extend(l0 + l1 + l2 + l3 + l4 + l5 + l6, l0, l7);
        lemma_holds_extend(l0 + l1 + l2 + l3 + l4 + l5 + l6 + l7, l0, tail);
    }
    {
        lemma_holds_end(l0, l1);
        lemma_holds_extend(l0 + l1, l1, l2);
        lemma_holds_extend(l0 + l1 + l2, l1, l3);
        lemma_holds_extend(l0 + l1 + l2 + l3, l1, l4);
        lemma_holds_extend(l0 + l1 + l2 + l3 + l4, l1, l5);
        lemma_holds_extend(l0 + l1 + l2 + l3 + l4 + l5, l1, l6);
        lemma_holds_extend(l0 + l1 + l2 + l3 + l4 + l5 + l6, l1, l7);
        lemma_holds_extend(l0 + l1 + l2 + l3 + l4 + l5 + l6 + l7, l1, tail);
    }
    {
        lemma_holds_end(l0 + l1, l2);
        lemma_holds_extend(l0 + l1 + l2, l2, l3);
        lemma_holds_extend(l0 + l1 + l2 + l3, l2, l4);
        lemma_holds_extend(l0 + l1 + l2 + l3 + l4, l2, l5);
        lemma_holds_extend(l0 + l1 + l2 + l3 + l4 + l5, l2, l6);
        lemma_holds_extend(l0 + l1 + l2 + l3 + l4 + l5 + l6, l2, l7);
        lemma_holds_extend(l0 + l1 + l2 + l3 + l4 + l5 + l6 + l7, l2, tail);
    }
    {
        lemma_holds_end(l0 + l1 + l2, l3);
        lemma_holds_extend(l0 + l1 + l2 + l3, l3, l4);
        lemma_holds_extend(l0 + l1 + l2 + l3 + l4, l3, l5);
        lemma_holds_extend(l0 + l1 + l2 + l3 + l4 + l5, l3, l6);
        lemma_holds_extend(l0 + l1 + l2 + l3 + l4 + l5 + l6, l3, l7);
        lemma_holds_extend(l0 + l1 + l2 + l3 + l4 + l5 + l6 + l7, l3, tail);
    }
    {
        lemma_holds_end(l0 + l1 + l2 + l3, l4);
        lemma_holds_extend(l0 + l1 + l2 + l3 + l4, l4, l5);
        lemma_holds_extend(l0 + l1 + l2 + l3 + l4 + l5, l4, l6);
        lemma_holds_extend(l0 + l1 + l2 + l3 + l4 + l5 + l6, l4, l7);
        lemma_holds_extend(l0 + l1 + l2 + l3 + l4 + l5 + l6 + l7, l4, tail);
    }
    {
        lemma_holds_end(l0 + l1 + l2 + l3 + l4, l5);
        lemma_holds_extend(l0 + l1 + l2 + l3 + l4 + l5, l5, l6);
        lemma_holds_extend(l0 + l1 + l2 + l3 + l4 + l5 + l6, l5, l7);
        lemma_holds_extend(l0 + l1 + l2 + l3 + l4 + l5 + l6 + l7, l5, tail);
    }
    {
        lemma_holds_end(l0 + l1 + l2 + l3 + l4 + l5, l6);
        lemma_holds_extend(l0 + l1 + l2 + l3 + l4 + l5 + l6, l6, l7);
        lemma_holds_extend(l0 + l1 + l2 + l3 + l4 + l5 + l6 + l7, l6, tail);
    }
    {
        lemma_holds_end(l0 + l1 + l2 + l3 + l4 + l5 + l6, l7);
        lemma_holds_extend(l0 + l1 + l2 + l3 + l4 + l5 + l6 + l7, l7, tail);
    }
    {
        lemma_holds_end(l0 + l1 + l2 + l3 + l4 + l5 + l6 + l7, tail);
    }
}

/// The text of a summary ends with each global counter on its own line
/// under its own label.
pub proof fn lemma_summary_text_counters(s: Summary)
    ensures
        holds_text(summary_lines(s), line("Total elements: "@ + decimal(s.global_counters.total_elements as nat))),
        holds_text(summary_lines(s), line("Total System Requirements: "@ + decimal(s.global_counters.total_requirements_system as nat))),
        holds_text(summary_lines(s), line("Total User Requirements: "@ + decimal(s.global_counters.total_requirements_user as nat))),
        holds_text(summary_lines(s), line("Total Verifications (Test): "@ + decimal(s.global_counters.total_verifications_test as nat))),
        holds_text(summary_lines(s), line("TotalVerifications (Analysis): "@ + decimal(s.global_counters.total_verifications_analysis as nat))),
        holds_text(summary_lines(s), line("TotalVerifications (Inspection): "@ + decimal(s.global_counters.total_verifications_inspection as nat))),
        holds_text(summary_lines(s), line("TotalVerifications (Demonstration): "@ + decimal(s.global_counters.total_verifications_demonstration as nat))),
        holds_text(summary_lines(s), line("Requirements not verified: "@ + decimal(s.global_counters.requirements_not_verified as nat))),
        holds_text(summary_lines(s), line("Requirements not satisfied: "@ + decimal(s.global_counters.requirements_not_satisfied as nat))),
{
    let l0 = line("------------------------------------"@);
    let l1 = line("Total elements: "@ + decimal(s.global_counters.total_elements as nat));
    let l2 = line("Total System Requirements: "@ + decimal(s.global_counters.total_requirements_system as nat));
    let l3 = line("Total User Requirements: "@ + decimal(s.global_counters.total_requirements_user as nat));
    let l4 = line("Total Verifications (Test): "@ + decimal(s.global_counters.total_verifications_test as nat));
    let l5 = line("TotalVerifications (Analysis): "@ + decimal(s.global_counters.total_verifications_analysis as nat));
    let l6 = line("TotalVerifications (Inspection): "@ + decimal(s.global_counters.total_verifications_inspection as nat));
    let l7 = line("TotalVerifications (Demonstration): "@ + decimal(s.global_counters.total_verifications_demonstration as nat));
    let l8 = line("Requirements not verified: "@ + decimal(s.global_counters.requirements_not_verified as nat));
    let l9 = line("Requirements not satisfied: "@ + decimal(s.global_counters.requirements_not_satisfied as nat));
    let head = line("--- MBSE Model summary ---"@) + files_lines(s.files@, s.files@.len() as int);
    assert(summary_lines(s) == head + l0 + l1 + l2 + l3 + l4 + l5 + l6 + l7 + l8 + l9);
    {
        lemma_holds_end(head + l0, l1);
        lemma_holds_extend(head + l0 + l1, l1, l2);
        lemma_holds_extend(head + l0 + l1 + l2, l1, l3);
        lemma_holds_extend(head + l0 + l1 + l2 + l3, l1, l4);
        lemma_holds_extend(head + l0 + l1 + l2 + l3 + l4, l1, l5);
        lemma_holds_extend(head + l0 + l1 + l2 + l3 + l4 + l5, l1, l6);
        lemma_holds_extend(head + l0 + l1 + l2 + l3 + l4 + l5 + l6, l1, l7);
        lemma_holds_extend(head + l0 + l1 + l2 + l3 + l4 + l5 + l6 + l7, l1, l8);
        lemma_holds_extend(head + l0 + l1 + l2 + l3 + l4 + l5 + l6 + l7 + l8, l1, l9);
    }
    {
        lemma_holds_end(head + l0 + l1, l2);
        lemma_holds_extend(head + l0 + l1 + l2, l2, l3);
        lemma_holds_extend(head + l0 + l1 + l2 + l3, l2, l4);
        lemma_holds_extend(head + l0 + l1 + l2 + l3 + l4, l2, l5);
        lemma_holds_extend(head + l0 + l1 + l2 + l3 + l4 + l5, l2, l6);
        lemma_holds_extend(head + l0 + l1 + l2 + l3 + l4 + l5 + l6, l2, l7);
        lemma_holds_extend(head + l0 + l1 + l2 + l3 + l4 + l5 + l6 + l7, l2, l8);
        lemma_holds_extend(head + l0 + l1 + l2 + l3 + l4 + l5 + l6 + l7 + l8, l2, l9);
    }
    {
        lemma_holds_end(head + l0 + l1 + l2, l3);
        lemma_holds_extend(head + l0 + l1 + l2 + l3, l3, l4);
        lemma_holds_extend(head + l0 + l1 + l2 + l3 + l4, l3, l5);
        lemma_holds_extend(head + l0 + l1 + l2 + l3 + l4 + l5, l3, l6);
        lemma_holds_extend(head + l0 + l1 + l2 + l3 + l4 + l5 + l6, l3, l7);
        lemma_holds_extend(head + l0 + l1 + l2 + l3 + l4 + l5 + l6 + l7, l3, l8);
        lemma_holds_extend(head + l0 + l1 + l2 + l3 + l4 + l5 + l6 + l7 + l8, l3, l9);
    }
    {
        lemma_holds_end(head + l0 + l1 + l2 + l3, l4);
        lemma_holds_extend(head + l0 + l1 + l2 + l3 + l4, l4, l5);
        lemma_holds_extend(head + l0 + l1 + l2 + l3 + l4 + l5, l4, l6);
        lemma_holds_extend(head + l0 + l1 + l2 + l3 + l4 + l5 + l6, l4, l7);
        lemma_holds_extend(head + l0 + l1 + l2 + l3 + l4 + l5 + l6 + l7, l4, l8);
        lemma_holds_extend(head + l0 + l1 + l2 + l3 + l4 + l5 + l6 + l7 + l8, l4, l9);
    }
    {
        lemma_holds_end(head + l0 + l1 + l2 + l3 + l4, l5);
        lemma_holds_extend(head + l0 + l1 + l2 + l3 + l4 + l5, l5, l6);
        lemma_holds_extend(head + l0 + l1 + l2 + l3 + l4 + l5 + l6, l5, l7);
        lemma_holds_extend(head + l0 + l1 + l2 + l3 + l4 + l5 + l6 + l7, l5, l8);
        lemma_holds_extend(head + l0 + l1 + l2 + l3 + l4 + l5 + l6 + l7 + l8, l5, l9);
    }
    {
        lemma_holds_end(head + l0 + l1 + l2 + l3 + l4 + l5, l6);
        lemma_holds_extend(head + l0 + l1 + l2 + l3 + l4 + l5 + l6, l6, l7);
        lemma_holds_extend(head + l0 + l1 + l2 + l3 + l4 + l5 + l6 + l7, l6, l8);
        lemma_holds_extend(head + l0 + l1 + l2 + l3 + l4 + l5 + l6 + l7 + l8, l6, l9);
    }
    {
        lemma_holds_end(head + l0 + l1 + l2 + l3 + l4 + l5 + l6, l7);
        lemma_holds_extend(head + l0 + l1 + l2 + l3 + l4 + l5 + l6 + l7, l7, l8);
        lemma_holds_extend(head + l0 + l1 + l2 + l3 + l4 + l5 + l6 + l7 + l8, l7, l9);
    }
    {
        lemma_holds_end(head + l0 + l1 + l2 + l3 + l4 + l5 + l6 + l7, l8);
        lemma_holds_extend(head + l0 + l1 + l2 + l3 + l4 + l5 + l6 + l7 + l8, l8, l9);
    }
    {
        lemma_holds_end(head + l0 + l1 + l2 + l3 + l4 + l5 + l6 + l7 + l8, l9);
    }
}

proof fn lemma_holds_end(p: Seq<char>, x: Seq<char>)
    ensures
        holds_text(p + x, x),
{
    let i = p.len() as int;
    assert((p + x).subrange(i, i + x.len()) =~= x);
}

proof fn lemma_holds_extend(t: Seq<char>, x: Seq<char>, y: Seq<char>)
    requires
        holds_text(t, x),
    ensures
        holds_text(t + y, x),
{
    let i = choose|i: int| 0 <= i && i + x.len() <= t.len() && #[trigger] t.subrange(i, i + x.len()) == x;
    assert((t + y).subrange(i, i + x.len()) =~= t.subrange(i, i + x.len()));
}

fn push_line(out: &mut String, a: &str, b: &str)
    ensures
        final(out)@ == old(out)@ + line(a@ + b@),
{
    out.append(a);
    out.append(b);
    push_char(out, '\n');
    assert(final(out)@ =~= old(out)@ + line(a@ + b@));
}

fn push_count_line(out: &mut String, a: &str, n: usize)
    ensures
        final(out)@ == old(out)@ + line(a@ + decimal(n as nat)),
{
    out.append(a);
    push_decimal(out, n);
    push_char(out, '\n');
    assert(final(out)@ =~= old(out)@ + line(a@ + decimal(n as nat)));
}

fn push_relation_line(out: &mut String, r: &RelationSummary)
    ensures
        final(out)@ == old(out)@ + relation_line(*r),
{
    out.append("        ↪ ");
    out.append(r.relation_type.as_str());
    out.append(": ");
    out.append(r.target.target.as_str());
    out.append(" (");
    out.append(r.target.link_type.as_str());
    out.append(")");
    push_char(out, '\n');
    assert(final(out)@ =~= old(out)@ + relation_line(*r));
}

fn push_element(out: &mut String, e: &ElementSummary)
    ensures
        final(out)@ == old(out)@ + element_lines(*e),
{
    let ghost o = out@;
    push_line(out, "    🔹 Element: ", e.identifier.as_str());
    push_line(out, "      - Name: ", e.name.as_str());
    push_line(out, "      - Section: ", e.section.as_str());
    push_line(out, "      - File: ", e.file.as_str());
    push_line(out, "      - Type: ", e.element_type.as_str());
    let content = debug_string(e.content.as_str());
    push_line(out, "      - Content: ", content.as_str());
    push_count_line(out, "      - Verified relations count: ", e.verified_relations_count);
    push_count_line(out, "      - Satisfied relations count: ", e.satisfied_relations_count);
    if e.relations.len() == 0 {
        push_line(out, "      - No relations.", "");
        assert("      - No relations."@ + ""@ =~= "      - No relations."@) by {
            reveal_strlit("");
        }
    } else {
        push_line(out, "      - Relations:", "");
        assert("      - Relations:"@ + ""@ =~= "      - Relations:"@) by {
            reveal_strlit("");
        }
        let ghost start = out@;
        let n = e.relations.len();
        let mut i: usize = 0;
        while i < n
            invariant
                i <= n,
                n == e.relations@.len(),
                out@ == start + relation_lines(*e, i as int),
            decreases n - i,
        {
            push_relation_line(out, &e.relations[i]);
            assert(out@ =~= start + relation_lines(*e, i + 1));
            i = i + 1;
        }
    }
    push_char(out, '\n');
    assert(line(seq![]) =~= seq!['\n']);
    assert(final(out)@ =~= o + element_lines(*e));
}

fn push_section(out: &mut String, sec: &SectionSummary)
    ensures
        final(out)@ == old(out)@ + section_lines(*sec),
{
    let ghost o = out@;
    push_line(out, "  📖 Section: ", sec.section.as_str());
    let ghost start = out@;
    let n = sec.elements.len();
    let mut i: usize = 0;
    while i < n
        invariant
            i <= n,
            n == sec.elements@.len(),
            out@ == start + section_element_lines(*sec, i as int),
        decreases n - i,
    {
        push_element(out, &sec.elements[i]);
        assert(out@ =~= start + section_element_lines(*sec, i + 1));
        i = i + 1;
    }
    assert(final(out)@ =~= o + section_lines(*sec));
}

fn push_counters(out: &mut String, c: &GlobalCounters)
    ensures
        final(out)@ == old(out)@ + counter_lines(*c),
{
    let ghost o = out@;
    push_line(out, "------------------------------------", "");
    assert("------------------------------------"@ + ""@ =~= "------------------------------------"@) by {
        reveal_strlit("");
    }
    push_count_line(out, "Total elements: ", c.total_elements);
    push_count_line(out, "Total System Requirements: ", c.total_requirements_system);
    push_count_line(out, "Total User Requirements: ", c.total_requirements_user);
    push_count_line(out, "Total Verifications (Test): ", c.total_verifications_test);
    push_count_line(out, "TotalVerifications (Analysis): ", c.total_verifications_analysis);
    push_count_line(out, "TotalVerifications (Inspection): ", c.total_verifications_inspection);
    push_count_line(out, "TotalVerifications (Demonstration): ", c.total_verifications_demonstration);
    push_count_line(out, "Requirements not verified: ", c.requirements_not_verified);
    push_count_line(out, "Requirements not satisfied: ", c.requirements_not_satisfied);
    assert(final(out)@ =~= o + counter_lines(*c));
}

/// Renders the summary as text: a title line, then for each document its
/// line, for each of its sections a line, for each element its lines (an
/// empty line after each element), then the global counters.
pub fn summary_text(summary: &Summary) -> (r: String)
    ensures
        r@ == summary_lines(*summary),
{
    let mut out = String::new();
    push_line(&mut out, "--- MBSE Model summary ---", "");
    assert("--- MBSE Model summary ---"@ + ""@ =~= "--- MBSE Model summary ---"@) by {
        reveal_strlit("");
    }
    let ghost start = out@;
    let n = summary.files.len();
    let mut i: usize = 0;
    while i < n
        invariant
            i <= n,
            n == summary.files@.len(),
            out@ == start + files_lines(summary.files@, i as int),
        decreases n - i,
    {
        let f = &summary.files[i];
        push_line(&mut out, "📂 File: ", f.file.as_str());
        let ghost mid = out@;
        let m = f.sections.len();
        let mut j: usize = 0;
        while j < m
            invariant
                j <= m,
                m == f.sections@.len(),
                out@ == mid + file_section_lines(*f, j as int),
            decreases m - j,
        {
            push_section(&mut out, &f.sections[j]);
            assert(out@ =~= mid + file_section_lines(*f, j + 1));
            j = j + 1;
        }
        assert(out@ =~= start + files_lines(summary.files@, i + 1));
        i = i + 1;
    }
    push_counters(&mut out, &summary.global_counters);
    assert(out@ =~= summary_lines(*summary));
    out
}


/// `ls` joined with `sep` between consecutive items (`[String]::join`).
pub open spec fn join_with(ls: Seq<Seq<char>>, sep: Seq<char>) -> Seq<char>
    decreases ls.len(),
{
    if ls.len() == 0 {
        seq![]
    } else if ls.len() == 1 {
        ls[0]
    } else {
        join_with(ls.drop_last(), sep) + sep + ls.last()
    }
}

/// The lines of a satisfied verification.
pub open spec fn satisfied_lines(v: VerificationDetails) -> Seq<char> {
    line("    ✅ "@ + v.name@ + " ("@ + v.verification_type@ + ")"@) + if v.satisfied_by@.len() == 0 {
        seq![]
    } else {
        line("       Satisfied by: "@ + join_with(v.satisfied_by@.map_values(|t: String| t@), ", "@))
    }
}

/// The line of an unsatisfied verification.
pub open spec fn unsatisfied_line(v: VerificationDetails) -> Seq<char> {
    line("    ❌ "@ + v.name@ + " ("@ + v.verification_type@ + ")"@)
}

/// The lines of the first `n` verifications of a document.
pub open spec fn verification_lines(f: FileVerifications, n: int, satisfied: bool) -> Seq<char>
    decreases n,
{
    if n <= 0 {
        seq![]
    } else {
        verification_lines(f, n - 1, satisfied) + if satisfied {
            satisfied_lines(f.verifications@[n - 1])
        } else {
            unsatisfied_line(f.verifications@[n - 1])
        }
    }
}

/// The lines of the first `n` documents of a group, each followed by an
/// empty line.
pub open spec fn group_lines(v: VerificationsByFile, n: int, satisfied: bool) -> Seq<char>
    decreases n,
{
    if n <= 0 {
        seq![]
    } else {
        let f = v.files@[n - 1];
        group_lines(v, n - 1, satisfied) + line("  📂 "@ + f.file@) + verification_lines(
            f,
            f.verifications@.len() as int,
            satisfied,
        ) + line(seq![])
    }
}

/// The lines of a group under its title; nothing when it has no document.
pub open spec fn titled_group(v: VerificationsByFile, title: Seq<char>, satisfied: bool) -> Seq<char> {
    if v.files@.len() == 0 {
        seq![]
    } else {
        line(title) + group_lines(v, v.files@.len() as int, satisfied)
    }
}

/// The text of a coverage report, with `percentage` standing for the
/// formatted coverage percentage.
pub open spec fn coverage_lines(r: CoverageReport, percentage: Seq<char>) -> Seq<char> {
    line("=== Verification Coverage Report ===\n"@) + line("Summary:"@) + line(
        "  Total Verifications: "@ + decimal(r.summary.total_verifications as nat),
    ) + line("  Satisfied: "@ + decimal(r.summary.total_satisfied as nat) + " ("@ + percentage + "%)"@)
        + line("  Unsatisfied: "@ + decimal(r.summary.total_unsatisfied as nat)) + line(seq![]) + line(
        "Verification Types:"@,
    ) + line("  Test: "@ + decimal(r.summary.verification_types.test as nat)) + line(
        "  Analysis: "@ + decimal(r.summary.verification_types.analysis as nat),
    ) + line("  Inspection: "@ + decimal(r.summary.verification_types.inspection as nat)) + line(
        "  Demonstration: "@ + decimal(r.summary.verification_types.demonstration as nat),
    ) + line(seq![]) + titled_group(r.satisfied_verifications, "Satisfied Verifications:"@, true)
        + titled_group(r.unsatisfied_verifications, "Unsatisfied Verifications:"@, false)
}

fn push_joined(out: &mut String, items: &Vec<String>, sep: &str)
    ensures
        final(out)@ == old(out)@ + join_with(items@.map_values(|t: String| t@), sep@),
{
    let ghost o = out@;
    let ghost vs = items@.map_values(|t: String| t@);
    let n = items.len();
    let mut i: usize = 0;
    while i < n
        invariant
            i <= n,
            n == items@.len(),
            vs == items@.map_values(|t: String| t@),
            out@ == o + join_with(vs.take(i as int), sep@),
        decreases n - i,
    {
        assert(vs.take(i + 1).drop_last() =~= vs.take(i as int));
        assert(vs.take(i + 1).last() == items@[i as int]@);
        if i > 0 {
            out.append(sep);
        }
        out.append(items[i].as_str());
        assert(out@ =~= o + join_with(vs.take(i + 1), sep@));
        i = i + 1;
    }
    assert(vs.take(n as int) =~= vs);
}

fn push_group(out: &mut String, v: &VerificationsByFile, title: &str, satisfied: bool)
    ensures
        final(out)@ == old(out)@ + titled_group(*v, title@, satisfied),
{
    if v.files.len() == 0 {
        assert(final(out)@ =~= old(out)@ + titled_group(*v, title@, satisfied));
        return;
    }
    let ghost o = out@;
    push_line(out, title, "");
    assert(title@ + ""@ =~= title@) by {
        reveal_strlit("");
    }
    let ghost start = out@;
    let n = v.files.len();
    let mut i: usize = 0;
    while i < n
        invariant
            i <= n,
            n == v.files@.len(),
            out@ == start + group_lines(*v, i as int, satisfied),
        decreases n - i,
    {
        let f = &v.files[i];
        push_line(out, "  📂 ", f.file.as_str());
        let ghost mid = out@;
        let m = f.verifications.len();
        let mut j: usize = 0;
        while j < m
            invariant
                j <= m,
                m == f.verifications@.len(),
                out@ == mid + verification_lines(*f, j as int, satisfied),
            decreases m - j,
        {
            let d = &f.verifications[j];
            if satisfied {
                out.append("    ✅ ");
            } else {
                out.append("    ❌ ");
            }
            out.append(d.name.as_str());
            out.append(" (");
            out.append(d.verification_type.as_str());
            out.append(")");
            push_char(out, '\n');
            if satisfied && d.satisfied_by.len() > 0 {
                out.append("       Satisfied by: ");
                push_joined(out, &d.satisfied_by, ", ");
                push_char(out, '\n');
            }
            assert(out@ =~= mid + verification_lines(*f, j + 1, satisfied));
            j = j + 1;
        }
        push_char(out, '\n');
        assert(line(seq![]) =~= seq!['\n']);
        assert(out@ =~= start + group_lines(*v, i + 1, satisfied));
        i = i + 1;
    }
    assert(final(out)@ =~= o + titled_group(*v, title@, satisfied));
}

impl CoverageReport {
    /// Renders the report as text: the totals (with `percentage`, the
    /// formatted coverage percentage), the counts by kind, then the
    /// satisfied verifications by document with what satisfies them, then
    /// the unsatisfied ones; a group with no document is left out.
    pub fn report_text(&self, percentage: &str) -> (r: String)
        ensures
            r@ == coverage_lines(*self, percentage@),
    {
        let mut out = String::new();
        push_line(&mut out, "=== Verification Coverage Report ===\n", "");
        assert("=== Verification Coverage Report ===\n"@ + ""@ =~= "=== Verification Coverage Report ===\n"@) by {
            reveal_strlit("");
        }
        push_line(&mut out, "Summary:", "");
        assert("Summary:"@ + ""@ =~= "Summary:"@) by {
            reveal_strlit("");
        }
        push_count_line(&mut out, "  Total Verifications: ", self.summary.total_verifications);
        out.append("  Satisfied: ");
        push_decimal(&mut out, self.summary.total_satisfied);
        out.append(" (");
        out.append(percentage);
        out.append("%)");
        push_char(&mut out, '\n');
        push_count_line(&mut out, "  Unsatisfied: ", self.summary.total_unsatisfied);
        push_char(&mut out, '\n');
        push_line(&mut out, "Verification Types:", "");
        assert("Verification Types:"@ + ""@ =~= "Verification Types:"@) by {
            reveal_strlit("");
        }
        push_count_line(&mut out, "  Test: ", self.summary.verification_types.test);
        push_count_line(&mut out, "  Analysis: ", self.summary.verification_types.analysis);
        push_count_line(&mut out, "  Inspection: ", self.summary.verification_types.inspection);
        push_count_line(&mut out, "  Demonstration: ", self.summary.verification_types.demonstration);
        push_char(&mut out, '\n');
        push_group(&mut out, &self.satisfied_verifications, "Satisfied Verifications:", true);
        push_group(&mut out, &self.unsatisfied_verifications, "Unsatisfied Verifications:", false);
        assert(line(seq![]) =~= seq!['\n']);
        assert(out@ =~= coverage_lines(*self, percentage@));
        out
    }
}

} // verus!
