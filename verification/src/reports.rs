//! Summaries of the model: the per-document, per-section listing with
//! global counters, its Cypher rendering, and the verification coverage
//! report.
use vstd::prelude::*;
use crate::diagrams::{derefs, holds_text};
use crate::filters::{Filters, lemma_counts_positive, satisfaction_count, verification_count};
use crate::model::{
    Element, ElementRegistry, ElementType, LinkType, Relation, RequirementType, VerificationType,
    metadata_name,
};
use crate::markdown::join_lines;
use crate::outside::{to_uppercase, uppercase};
use crate::text::{
    lemma_no_fence_unchanged, lemma_replace_absent, lemma_replace_app, lemma_replace_cons, lemma_replace_fences,
    lemma_replace_keeps_absent, lemma_replace_removes, no_triple_backtick, push_char, replace_all, replace_str,
};

verus! {

/// `escape`: backslashes, double quotes and newlines escaped with a
/// backslash, carriage returns removed, and each triple backtick replaced
/// by `~~~`, in that order.
pub open spec fn escaped(s: Seq<char>) -> Seq<char> {
    replace_all(
        replace_all(
            replace_all(replace_all(replace_all(s, "\\"@, "\\\\"@), "\""@, "\\\""@), "\n"@, "\\n"@),
            "\r"@,
            ""@,
        ),
        "```"@,
        "~~~"@,
    )
}

/// Escapes `s` for a double-quoted Cypher string.
pub fn escape(s: &str) -> (r: String)
    ensures
        r@ == escaped(s@),
{
    proof {
        reveal_strlit("\\");
        reveal_strlit("\"");
        reveal_strlit("\n");
        reveal_strlit("\r");
        reveal_strlit("```");
    }
    let a = replace_str(s, "\\", "\\\\");
    let b = replace_str(a.as_str(), "\"", "\\\"");
    let c = replace_str(b.as_str(), "\n", "\\n");
    let d = replace_str(c.as_str(), "\r", "");
    replace_str(d.as_str(), "```", "~~~")
}

/// An escaped text holds no line feed, no carriage return and no triple
/// backtick, so it stays on one line inside a double-quoted Cypher string
/// and cannot close a Markdown code block.
pub proof fn lemma_escaped_safe(s: Seq<char>)
    ensures
        !escaped(s).contains('\n'),
        !escaped(s).contains('\r'),
        no_triple_backtick(escaped(s)),
{
    reveal_strlit("\\");
    reveal_strlit("\\\\");
    reveal_strlit("\"");
    reveal_strlit("\\\"");
    reveal_strlit("\n");
    reveal_strlit("\\n");
    reveal_strlit("\r");
    reveal_strlit("");
    reveal_strlit("```");
    reveal_strlit("~~~");
    let a = replace_all(s, "\\"@, "\\\\"@);
    let b = replace_all(a, "\""@, "\\\""@);
    assert("\n"@ =~= seq!['\n']);
    assert("\r"@ =~= seq!['\r']);
    assert(!"\\n"@.contains('\n')) by {
        assert("\\n"@[0] != '\n' && "\\n"@[1] != '\n');
    }
    lemma_replace_removes(b, '\n', "\\n"@);
    let c = replace_all(b, "\n"@, "\\n"@);
    assert(!""@.contains('\n') && !""@.contains('\r'));
    lemma_replace_removes(c, '\r', ""@);
    lemma_replace_keeps_absent(c, "\r"@, ""@, '\n');
    let d = replace_all(c, "\r"@, ""@);
    assert(!"~~~"@.contains('\n') && !"~~~"@.contains('\r')) by {
        assert("~~~"@ =~= seq!['~', '~', '~']);
    }
    lemma_replace_keeps_absent(d, "```"@, "~~~"@, '\n');
    lemma_replace_keeps_absent(d, "```"@, "~~~"@, '\r');
    assert("```"@ =~= seq!['`', '`', '`']);
    lemma_replace_fences(d);
}

/// Reads an escaped text back: a backslash followed by a backslash, a double
/// quote or `n` stands for a backslash, a double quote or a line feed; any
/// other character stands for itself.
pub open spec fn unescaped(s: Seq<char>) -> Seq<char>
    decreases s.len(),
{
    if s.len() == 0 {
        seq![]
    } else if s.len() >= 2 && s[0] == '\\' && (s[1] == '\\' || s[1] == '"' || s[1] == 'n') {
        seq![if s[1] == 'n' { '\n' } else { s[1] }] + unescaped(s.skip(2))
    } else {
        seq![s[0]] + unescaped(s.drop_first())
    }
}

/// How `escape` writes one character, before carriage returns and triple
/// backticks are dealt with.
spec fn escaped_char(c: char) -> Seq<char> {
    if c == '\\' {
        seq!['\\', '\\']
    } else if c == '"' {
        seq!['\\', '"']
    } else if c == '\n' {
        seq!['\\', 'n']
    } else {
        seq![c]
    }
}

/// The first three replacements of `escape`.
spec fn first_escapes(s: Seq<char>) -> Seq<char> {
    replace_all(
        replace_all(replace_all(s, seq!['\\'], seq!['\\', '\\']), seq!['"'], seq!['\\', '"']),
        seq!['\n'],
        seq!['\\', 'n'],
    )
}

proof fn lemma_first_escapes_cons(c: char, t: Seq<char>)
    ensures
        first_escapes(seq![c] + t) == escaped_char(c) + first_escapes(t),
{
    let a1 = seq!['\\', '\\'];
    let a2 = seq!['\\', '"'];
    let a3 = seq!['\\', 'n'];
    let e: Seq<char> = seq![];
    let r1t = replace_all(t, seq!['\\'], a1);
    let r2t = replace_all(r1t, seq!['"'], a2);
    lemma_replace_cons(c, t, '\\', a1);
    let h1 = if c == '\\' {
        a1
    } else {
        seq![c]
    };
    lemma_replace_app(h1, r1t, '"', a2);
    let h2 = replace_all(h1, seq!['"'], a2);
    lemma_replace_app(h2, r2t, '\n', a3);
    let h3 = replace_all(h2, seq!['\n'], a3);
    assert(replace_all(e, seq!['"'], a2) == e);
    assert(replace_all(e, seq!['\n'], a3) == e);
    assert(seq![c] =~= seq![c] + e);
    if c == '\\' {
        assert(!a1.contains('"') && !a1.contains('\n')) by {
            assert(a1[0] == '\\' && a1[1] == '\\');
        }
        lemma_replace_absent(a1, '"', a2);
        lemma_replace_absent(a1, '\n', a3);
    } else if c == '"' {
        lemma_replace_cons(c, e, '"', a2);
        assert(a2 + e =~= a2);
        assert(!a2.contains('\n')) by {
            assert(a2[0] == '\\' && a2[1] == '"');
        }
        lemma_replace_absent(a2, '\n', a3);
    } else if c == '\n' {
        assert(!seq![c].contains('"')) by {
            assert(seq![c][0] == c);
        }
        lemma_replace_absent(seq![c], '"', a2);
        lemma_replace_cons(c, e, '\n', a3);
        assert(a3 + e =~= a3);
    } else {
        assert(!seq![c].contains('"') && !seq![c].contains('\n')) by {
            assert(seq![c][0] == c);
        }
        lemma_replace_absent(seq![c], '"', a2);
        lemma_replace_absent(seq![c], '\n', a3);
    }
    assert(h3 == escaped_char(c));
}

proof fn lemma_unescape_first_escapes(s: Seq<char>)
    ensures
        unescaped(first_escapes(s)) == s,
    decreases s.len(),
{
    if s.len() == 0 {
        assert(first_escapes(s) =~= s);
    } else {
        let t = s.drop_first();
        assert(s =~= seq![s[0]] + t);
        lemma_first_escapes_cons(s[0], t);
        lemma_unescape_first_escapes(t);
        let x = escaped_char(s[0]) + first_escapes(t);
        if s[0] == '\\' || s[0] == '"' || s[0] == '\n' {
            assert(x.skip(2) =~= first_escapes(t));
        } else {
            assert(x.drop_first() =~= first_escapes(t));
        }
    }
}

proof fn lemma_first_escapes_fences(s: Seq<char>)
    requires
        no_triple_backtick(s),
    ensures
        no_triple_backtick(first_escapes(s)),
        (first_escapes(s).len() >= 1 && first_escapes(s)[0] == '`') ==> (s.len() >= 1 && s[0] == '`'),
        (first_escapes(s).len() >= 2 && first_escapes(s)[0] == '`' && first_escapes(s)[1] == '`') ==> (s.len()
            >= 2 && s[0] == '`' && s[1] == '`'),
    decreases s.len(),
{
    if s.len() == 0 {
        assert(first_escapes(s) =~= s);
    } else {
        let c = s[0];
        let t = s.drop_first();
        assert(s =~= seq![c] + t);
        assert forall|i: int| 0 <= i < t.len() - 2 implies !(#[trigger] t[i] == '`' && t[i + 1] == '`' && t[i
            + 2] == '`') by {
            assert(t[i] == s[i + 1] && t[i + 1] == s[i + 2] && t[i + 2] == s[i + 3]);
            assert(!(s[i + 1] == '`' && s[i + 2] == '`' && s[i + 3] == '`'));
        }
        lemma_first_escapes_fences(t);
        lemma_first_escapes_cons(c, t);
        let ec = escaped_char(c);
        let ft = first_escapes(t);
        let x = ec + ft;
        assert forall|k: int| 0 <= k < ec.len() implies ec[k] != '`' || c == '`' by {}
        assert forall|i: int| 0 <= i < x.len() - 2 implies !(#[trigger] x[i] == '`' && x[i + 1] == '`' && x[i
            + 2] == '`') by {
            if i >= ec.len() {
                assert(x[i] == ft[i - ec.len()] && x[i + 1] == ft[i - ec.len() + 1] && x[i + 2] == ft[i - ec.len()
                    + 2]);
            } else if c == '`' {
                if x[i] == '`' && x[i + 1] == '`' && x[i + 2] == '`' {
                    assert(ft[0] == '`' && ft[1] == '`');
                    assert(s[0] == '`' && s[1] == '`' && s[2] == '`');
                }
            } else {
                assert(x[i] == ec[i]);
            }
        }
        if c == '`' {
            assert(x[0] == '`');
            if x.len() >= 2 && x[1] == '`' {
                assert(ft[0] == '`');
            }
        } else {
            assert(x[0] == ec[0]);
        }
    }
}

/// Escaping can be read back: a text with no carriage return and no triple
/// backtick is given back by `unescaped` from its escaped form.
pub proof fn lemma_unescape_escaped(s: Seq<char>)
    requires
        !s.contains('\r'),
        no_triple_backtick(s),
    ensures
        unescaped(escaped(s)) == s,
{
    reveal_strlit("\\");
    reveal_strlit("\\\\");
    reveal_strlit("\"");
    reveal_strlit("\\\"");
    reveal_strlit("\n");
    reveal_strlit("\\n");
    reveal_strlit("\r");
    reveal_strlit("");
    reveal_strlit("```");
    reveal_strlit("~~~");
    assert("\\"@ =~= seq!['\\']);
    assert("\\\\"@ =~= seq!['\\', '\\']);
    assert("\""@ =~= seq!['"']);
    assert("\\\""@ =~= seq!['\\', '"']);
    assert("\n"@ =~= seq!['\n']);
    assert("\\n"@ =~= seq!['\\', 'n']);
    assert("\r"@ =~= seq!['\r']);
    assert(""@ =~= Seq::<char>::empty());
    assert("```"@ =~= seq!['`', '`', '`']);
    assert("~~~"@ =~= seq!['~', '~', '~']);
    let a1 = seq!['\\', '\\'];
    let a2 = seq!['\\', '"'];
    let a3 = seq!['\\', 'n'];
    assert(!a1.contains('\r') && !a2.contains('\r') && !a3.contains('\r')) by {
        assert(a1[0] == '\\' && a1[1] == '\\' && a2[0] == '\\' && a2[1] == '"' && a3[0] == '\\' && a3[1] == 'n');
    }
    let r1 = replace_all(s, seq!['\\'], a1);
    let r2 = replace_all(r1, seq!['"'], a2);
    lemma_replace_keeps_absent(s, seq!['\\'], a1, '\r');
    lemma_replace_keeps_absent(r1, seq!['"'], a2, '\r');
    lemma_replace_keeps_absent(r2, seq!['\n'], a3, '\r');
    let f = first_escapes(s);
    lemma_replace_absent(f, '\r', seq![]);
    lemma_first_escapes_fences(s);
    lemma_no_fence_unchanged(f);
    lemma_unescape_first_escapes(s);
    assert(escaped(s) == f);
}

/// How a summary is written out.
#[derive(Clone, Copy, Debug, PartialEq, Eq, Structural)]
pub enum SummaryOutputFormat {
    Text,
    Json,
    Cypher,
}

/// Where a relation points and what kind of link that is.
pub struct TargetSummary {
    pub target: String,
    pub link_type: String,
}

/// A relation in a summary.
pub struct RelationSummary {
    pub relation_type: String,
    pub target: TargetSummary,
}

/// An element in a summary.
pub struct ElementSummary {
    pub identifier: String,
    pub name: String,
    pub section: String,
    pub file: String,
    pub element_type: String,
    pub content: String,
    pub verified_relations_count: usize,
    pub satisfied_relations_count: usize,
    pub relations: Vec<RelationSummary>,
}

/// The elements of one section of a document.
pub struct SectionSummary {
    pub section: String,
    pub elements: Vec<ElementSummary>,
}

/// The sections of one document.
pub struct FileSummary {
    pub file: String,
    pub sections: Vec<SectionSummary>,
}

/// Counts over the summarized elements.
pub struct GlobalCounters {
    pub total_elements: usize,
    pub total_requirements_system: usize,
    pub total_requirements_user: usize,
    pub total_verifications_test: usize,
    pub total_verifications_analysis: usize,
    pub total_verifications_inspection: usize,
    pub total_verifications_demonstration: usize,
    pub requirements_not_verified: usize,
    pub requirements_not_satisfied: usize,
}

/// The summary of the elements that pass the filters.
pub struct Summary {
    pub files: Vec<FileSummary>,
    pub global_counters: GlobalCounters,
}

/// The elements of `es` that pass `f`, in order.
pub open spec fn filtered(es: Seq<Element>, f: Filters) -> Seq<Element>
    decreases es.len(),
{
    if es.len() == 0 {
        seq![]
    } else {
        let m = filtered(es.drop_last(), f);
        if f.accepts(es.last()) {
            m.push(es.last())
        } else {
            m
        }
    }
}

/// What a global counter counts.
pub enum CounterKind {
    Element,
    SystemRequirement,
    UserRequirement,
    TestVerification,
    AnalysisVerification,
    InspectionVerification,
    DemonstrationVerification,
    RequirementNotVerified,
    RequirementNotSatisfied,
}

/// The relations of `rs` that count as satisfactions but not as
/// verifications.
pub open spec fn satisfied_only_count(rs: Seq<Relation>) -> nat
    decreases rs.len(),
{
    if rs.len() == 0 {
        0
    } else {
        satisfied_only_count(rs.drop_last()) + if !rs.last().relation_type.is_verification
            && rs.last().relation_type.is_satisfaction {
            1nat
        } else {
            0nat
        }
    }
}

/// The verification and satisfaction counts a summary gives element `e`:
/// those of its relations for a requirement (a relation that counts as both
/// counts as a verification), zero otherwise.
pub open spec fn relation_counts(e: Element) -> (nat, nat) {
    match e.element_type {
        ElementType::Requirement(_) => (verification_count(e.relations@), satisfied_only_count(e.relations@)),
        _ => (0, 0),
    }
}

/// Whether element `e` counts towards counter `k`.
pub open spec fn counts_as(e: Element, k: CounterKind) -> bool {
    match k {
        CounterKind::Element => true,
        CounterKind::SystemRequirement => e.element_type == ElementType::Requirement(RequirementType::System),
        CounterKind::UserRequirement => e.element_type == ElementType::Requirement(RequirementType::User),
        CounterKind::TestVerification => e.element_type == ElementType::Verification(VerificationType::Default)
            || e.element_type == ElementType::Verification(VerificationType::Test),
        CounterKind::AnalysisVerification => e.element_type == ElementType::Verification(VerificationType::Analysis),
        CounterKind::InspectionVerification => e.element_type == ElementType::Verification(VerificationType::Inspection),
        CounterKind::DemonstrationVerification => e.element_type == ElementType::Verification(
            VerificationType::Demonstration,
        ),
        CounterKind::RequirementNotVerified => e.element_type is Requirement && relation_counts(e).0 == 0,
        CounterKind::RequirementNotSatisfied => e.element_type is Requirement && relation_counts(e).1 == 0,
    }
}

/// The number of elements of `es` that count towards `k`.
pub open spec fn count_of(es: Seq<Element>, k: CounterKind) -> nat
    decreases es.len(),
{
    if es.len() == 0 {
        0
    } else {
        count_of(es.drop_last(), k) + if counts_as(es.last(), k) {
            1nat
        } else {
            0nat
        }
    }
}

proof fn lemma_count_bound(es: Seq<Element>, k: CounterKind)
    ensures
        count_of(es, k) <= es.len(),
    decreases es.len(),
{
    if es.len() > 0 {
        lemma_count_bound(es.drop_last(), k);
    }
}

/// The requirements counted as missing a verification or a satisfaction are
/// among the system and user requirements counted, and no kind counts more
/// elements than there are.
pub proof fn lemma_counter_bounds(es: Seq<Element>)
    ensures
        count_of(es, CounterKind::RequirementNotVerified) <= count_of(es, CounterKind::SystemRequirement)
            + count_of(es, CounterKind::UserRequirement),
        count_of(es, CounterKind::RequirementNotSatisfied) <= count_of(es, CounterKind::SystemRequirement)
            + count_of(es, CounterKind::UserRequirement),
        count_of(es, CounterKind::SystemRequirement) + count_of(es, CounterKind::UserRequirement) + count_of(
            es,
            CounterKind::TestVerification,
        ) + count_of(es, CounterKind::AnalysisVerification) + count_of(es, CounterKind::InspectionVerification)
            + count_of(es, CounterKind::DemonstrationVerification) <= count_of(es, CounterKind::Element),
    decreases es.len(),
{
    if es.len() > 0 {
        lemma_counter_bounds(es.drop_last());
        let e = es.last();
        match e.element_type {
            ElementType::Requirement(r) => {
                match r {
                    RequirementType::System => {},
                    RequirementType::User => {},
                }
            },
            ElementType::Verification(v) => {
                match v {
                    VerificationType::Default => {},
                    VerificationType::Test => {},
                    VerificationType::Analysis => {},
                    VerificationType::Inspection => {},
                    VerificationType::Demonstration => {},
                }
            },
            ElementType::Other(_) => {},
        }
    }
}

proof fn lemma_satisfied_only_positive(rs: Seq<Relation>)
    ensures
        satisfied_only_count(rs) > 0 <==> exists|j: int|
            0 <= j < rs.len() && #[trigger] rs[j].relation_type.is_satisfaction && !rs[j].relation_type.is_verification,
    decreases rs.len(),
{
    if rs.len() > 0 {
        let d = rs.drop_last();
        lemma_satisfied_only_positive(d);
        assert(rs.last() == rs[rs.len() - 1]);
        if rs.last().relation_type.is_satisfaction {
            assert(rs[rs.len() - 1].relation_type.is_satisfaction);
        }
        if exists|j: int| 0 <= j < d.len() && #[trigger] d[j].relation_type.is_satisfaction && !d[j].relation_type.is_verification {
            let j = choose|j: int| 0 <= j < d.len() && #[trigger] d[j].relation_type.is_satisfaction && !d[j].relation_type.is_verification;
            assert(rs[j] == d[j]);
            assert(rs[j].relation_type.is_satisfaction);
        }
        if exists|j: int| 0 <= j < rs.len() && #[trigger] rs[j].relation_type.is_satisfaction && !rs[j].relation_type.is_verification {
            let j = choose|j: int| 0 <= j < rs.len() && #[trigger] rs[j].relation_type.is_satisfaction && !rs[j].relation_type.is_verification;
            if j < d.len() {
                assert(d[j] == rs[j]);
                assert(d[j].relation_type.is_satisfaction);
            }
        }
    }
}

/// Whether the counters are the counts over `es`.
pub open spec fn counters_of(c: GlobalCounters, es: Seq<Element>) -> bool {
    &&& c.total_elements == count_of(es, CounterKind::Element)
    &&& c.total_requirements_system == count_of(es, CounterKind::SystemRequirement)
    &&& c.total_requirements_user == count_of(es, CounterKind::UserRequirement)
    &&& c.total_verifications_test == count_of(es, CounterKind::TestVerification)
    &&& c.total_verifications_analysis == count_of(es, CounterKind::AnalysisVerification)
    &&& c.total_verifications_inspection == count_of(es, CounterKind::InspectionVerification)
    &&& c.total_verifications_demonstration == count_of(es, CounterKind::DemonstrationVerification)
    &&& c.requirements_not_verified == count_of(es, CounterKind::RequirementNotVerified)
    &&& c.requirements_not_satisfied == count_of(es, CounterKind::RequirementNotSatisfied)
}

/// Each summary counter counts exactly its own kind: adding an element adds
/// one element; a system or user requirement adds one to its own kind, and
/// one to the requirements not verified when none of its relations is a
/// verification, and to those not satisfied when none is a satisfaction
/// that is not also a verification; a verification adds one to its own kind
/// (a default one counting as a test); every other counter stays.
pub proof fn lemma_counters_step(c1: GlobalCounters, c2: GlobalCounters, es: Seq<Element>, e: Element)
    requires
        counters_of(c1, es),
        counters_of(c2, es.push(e)),
    ensures
        c2.total_elements == c1.total_elements + 1,
        c2.total_requirements_system == c1.total_requirements_system + if e.element_type
            == ElementType::Requirement(RequirementType::System) {
            1int
        } else {
            0int
        },
        c2.total_requirements_user == c1.total_requirements_user + if e.element_type == ElementType::Requirement(
            RequirementType::User,
        ) {
            1int
        } else {
            0int
        },
        c2.total_verifications_test == c1.total_verifications_test + if e.element_type == ElementType::Verification(
            VerificationType::Default,
        ) || e.element_type == ElementType::Verification(VerificationType::Test) {
            1int
        } else {
            0int
        },
        c2.total_verifications_analysis == c1.total_verifications_analysis + if e.element_type
            == ElementType::Verification(VerificationType::Analysis) {
            1int
        } else {
            0int
        },
        c2.total_verifications_inspection == c1.total_verifications_inspection + if e.element_type
            == ElementType::Verification(VerificationType::Inspection) {
            1int
        } else {
            0int
        },
        c2.total_verifications_demonstration == c1.total_verifications_demonstration + if e.element_type
            == ElementType::Verification(VerificationType::Demonstration) {
            1int
        } else {
            0int
        },
        c2.requirements_not_verified == c1.requirements_not_verified + if e.element_type is Requirement && !(exists|j: int|
            0 <= j < e.relations@.len() && #[trigger] e.relations@[j].relation_type.is_verification) {
            1int
        } else {
            0int
        },
        c2.requirements_not_satisfied == c1.requirements_not_satisfied + if e.element_type is Requirement && !(exists|j: int|
            0 <= j < e.relations@.len() && #[trigger] e.relations@[j].relation_type.is_satisfaction
                && !e.relations@[j].relation_type.is_verification) {
            1int
        } else {
            0int
        },
{
    let es2 = es.push(e);
    assert(es2.drop_last() =~= es);
    assert(es2.last() == e);
    lemma_counts_positive(e.relations@);
    lemma_satisfied_only_positive(e.relations@);
}

/// The text of a link target.
pub open spec fn link_text(l: LinkType) -> Seq<char> {
    match l {
        LinkType::Identifier(x) => x@,
        LinkType::ExternalUrl(x) => x@,
        LinkType::InternalPath(x) => x@,
    }
}

/// The name of the kind of a link target.
pub open spec fn link_kind(l: LinkType) -> Seq<char> {
    match l {
        LinkType::Identifier(_) => "identifier"@,
        LinkType::ExternalUrl(_) => "external-url"@,
        LinkType::InternalPath(_) => "internal-path"@,
    }
}

/// Whether `s` summarizes relation `r`.
pub open spec fn relation_summarized(s: RelationSummary, r: Relation) -> bool {
    &&& s.relation_type@ == r.relation_type.name@
    &&& s.target.target@ == link_text(r.target.link)
    &&& s.target.link_type@ == link_kind(r.target.link)
}

/// A relation's summary names its relation type, its target as written,
/// and its kind of link: `identifier` for an element, `external-url` for a
/// web address and `internal-path` for a repository path.
pub proof fn lemma_link_kinds(s: RelationSummary, r: Relation)
    requires
        relation_summarized(s, r),
    ensures
        s.relation_type@ == r.relation_type.name@,
        r.target.link matches LinkType::Identifier(x) ==> s.target.target@ == x@ && s.target.link_type@
            == "identifier"@,
        r.target.link matches LinkType::ExternalUrl(x) ==> s.target.target@ == x@ && s.target.link_type@
            == "external-url"@,
        r.target.link matches LinkType::InternalPath(x) ==> s.target.target@ == x@ && s.target.link_type@
            == "internal-path"@,
{
}

/// Relations with different kinds of link are summarized with different
/// link types.
pub proof fn lemma_link_kinds_distinct(s1: RelationSummary, r1: Relation, s2: RelationSummary, r2: Relation)
    requires
        relation_summarized(s1, r1),
        relation_summarized(s2, r2),
    ensures
        (r1.target.link is Identifier) != (r2.target.link is Identifier) || (r1.target.link is ExternalUrl) != (
        r2.target.link is ExternalUrl) ==> s1.target.link_type@ != s2.target.link_type@,
{
    reveal_strlit("identifier");
    reveal_strlit("external-url");
    reveal_strlit("internal-path");
    assert("identifier"@.len() == 10);
    assert("external-url"@.len() == 12);
    assert("internal-path"@.len() == 13);
}

/// Whether `s` summarizes element `e`.
pub open spec fn element_summarized(s: ElementSummary, e: Element) -> bool {
    &&& s.identifier@ == e.identifier@
    &&& s.name@ == e.name@
    &&& s.section@ == e.section@
    &&& s.file@ == e.file_path@
    &&& s.element_type@ == metadata_name(e.element_type)
    &&& s.content@ == e.content@
    &&& s.verified_relations_count == relation_counts(e).0
    &&& s.satisfied_relations_count == relation_counts(e).1
    &&& s.relations@.len() == e.relations@.len()
    &&& forall|i: int| 0 <= i < e.relations@.len() ==> relation_summarized(#[trigger] s.relations@[i], e.relations@[i])
}

/// The distinct values of `s` in order of first appearance.
pub open spec fn distinct<K>(s: Seq<K>) -> Seq<K>
    decreases s.len(),
{
    if s.len() == 0 {
        seq![]
    } else {
        let d = distinct(s.drop_last());
        if d.contains(s.last()) {
            d
        } else {
            d.push(s.last())
        }
    }
}

/// The documents of `es`, one per element.
pub open spec fn file_keys(es: Seq<Element>) -> Seq<Seq<char>> {
    es.map_values(|e: Element| e.file_path@)
}

/// The sections of `es`, one per element.
pub open spec fn section_keys_of(es: Seq<Element>) -> Seq<Seq<char>> {
    es.map_values(|e: Element| e.section@)
}

/// The distinct documents of `es`, in order of first appearance.
pub open spec fn file_names(es: Seq<Element>) -> Seq<Seq<char>> {
    distinct(file_keys(es))
}

/// The distinct sections of `es`, in order of first appearance.
pub open spec fn section_names(es: Seq<Element>) -> Seq<Seq<char>> {
    distinct(section_keys_of(es))
}

/// The elements of `es` in document `f`, in order.
pub open spec fn in_file(es: Seq<Element>, f: Seq<char>) -> Seq<Element>
    decreases es.len(),
{
    if es.len() == 0 {
        seq![]
    } else {
        let m = in_file(es.drop_last(), f);
        if es.last().file_path@ == f {
            m.push(es.last())
        } else {
            m
        }
    }
}

/// The elements of `es` in section `s`, in order.
pub open spec fn in_section(es: Seq<Element>, s: Seq<char>) -> Seq<Element>
    decreases es.len(),
{
    if es.len() == 0 {
        seq![]
    } else {
        let m = in_section(es.drop_last(), s);
        if es.last().section@ == s {
            m.push(es.last())
        } else {
            m
        }
    }
}

/// Whether `sec` lists, in order, the summaries of the elements `es`.
pub open spec fn section_summarized(sec: SectionSummary, name: Seq<char>, es: Seq<Element>) -> bool {
    &&& sec.section@ == name
    &&& sec.elements@.len() == es.len()
    &&& forall|k: int| 0 <= k < es.len() ==> element_summarized(#[trigger] sec.elements@[k], es[k])
}

/// Whether `fsum` summarizes the elements `es` of document `name`, section
/// by section in order of first appearance.
pub open spec fn file_summarized(fsum: FileSummary, name: Seq<char>, es: Seq<Element>) -> bool {
    let secs = section_names(es);
    &&& fsum.file@ == name
    &&& fsum.sections@.len() == secs.len()
    &&& forall|j: int|
        0 <= j < secs.len() ==> section_summarized(#[trigger] fsum.sections@[j], secs[j], in_section(es, secs[j]))
}

/// Whether `files` summarizes the elements `es`, document by document in
/// order of first appearance.
pub open spec fn files_summarized(files: Seq<FileSummary>, es: Seq<Element>) -> bool {
    let names = file_names(es);
    &&& files.len() == names.len()
    &&& forall|i: int| 0 <= i < names.len() ==> file_summarized(#[trigger] files[i], names[i], in_file(es, names[i]))
}


/// The key an element is grouped by: its document, or its section.
pub open spec fn group_key(e: Element, by_file: bool) -> Seq<char> {
    if by_file {
        e.file_path@
    } else {
        e.section@
    }
}

/// The elements of `es` with group key `k`.
pub open spec fn group(es: Seq<Element>, by_file: bool, k: Seq<char>) -> Seq<Element> {
    if by_file {
        in_file(es, k)
    } else {
        in_section(es, k)
    }
}

/// The group keys of `es`, one per element.
pub open spec fn group_keys(es: Seq<Element>, by_file: bool) -> Seq<Seq<char>> {
    if by_file {
        file_keys(es)
    } else {
        section_keys_of(es)
    }
}

/// The total size of the groups of the first `n` keys of `ks`.
pub open spec fn group_total(es: Seq<Element>, by_file: bool, ks: Seq<Seq<char>>, n: int) -> nat
    decreases n,
{
    if n <= 0 {
        0
    } else {
        group_total(es, by_file, ks, n - 1) + group(es, by_file, ks[n - 1]).len()
    }
}

proof fn lemma_group_step(es: Seq<Element>, by_file: bool, k: Seq<char>)
    requires
        es.len() > 0,
    ensures
        group(es, by_file, k).len() == group(es.drop_last(), by_file, k).len() + if group_key(es.last(), by_file) == k {
            1nat
        } else {
            0nat
        },
{
}

proof fn lemma_group_total_step(es: Seq<Element>, by_file: bool, ks: Seq<Seq<char>>, n: int)
    requires
        es.len() > 0,
        0 <= n <= ks.len(),
        ks.no_duplicates(),
    ensures
        group_total(es, by_file, ks, n) == group_total(es.drop_last(), by_file, ks, n) + if ks.take(n).contains(
            group_key(es.last(), by_file),
        ) {
            1nat
        } else {
            0nat
        },
    decreases n,
{
    if n > 0 {
        lemma_group_total_step(es, by_file, ks, n - 1);
        lemma_group_step(es, by_file, ks[n - 1]);
        let kx = group_key(es.last(), by_file);
        let a = ks.take(n - 1);
        let b = ks.take(n);
        assert(b =~= a.push(ks[n - 1]));
        if a.contains(kx) {
            let w = choose|w: int| 0 <= w < a.len() && #[trigger] a[w] == kx;
            assert(ks[w] == kx);
            assert(ks[n - 1] != kx);
            assert(b[w] == kx);
        }
        if ks[n - 1] == kx {
            assert(b[n - 1] == kx);
        }
        if b.contains(kx) {
            let w = choose|w: int| 0 <= w < b.len() && #[trigger] b[w] == kx;
            if w < n - 1 {
                assert(a[w] == kx);
            }
        }
    } else {
        assert(ks.take(0).len() == 0);
    }
}

proof fn lemma_group_total_prefix(es: Seq<Element>, by_file: bool, a: Seq<Seq<char>>, b: Seq<Seq<char>>, n: int)
    requires
        0 <= n <= a.len(),
        n <= b.len(),
        forall|i: int| 0 <= i < n ==> a[i] == b[i],
    ensures
        group_total(es, by_file, a, n) == group_total(es, by_file, b, n),
    decreases n,
{
    if n > 0 {
        lemma_group_total_prefix(es, by_file, a, b, n - 1);
    }
}

proof fn lemma_distinct_props<K>(s: Seq<K>)
    ensures
        distinct(s).no_duplicates(),
        forall|x: K| s.contains(x) <==> #[trigger] distinct(s).contains(x),
    decreases s.len(),
{
    if s.len() > 0 {
        lemma_distinct_props(s.drop_last());
        let d = distinct(s.drop_last());
        assert forall|x: K| s.contains(x) <==> #[trigger] distinct(s).contains(x) by {
            if s.contains(x) {
                let i = choose|i: int| 0 <= i < s.len() && s[i] == x;
                if i < s.len() - 1 {
                    assert(s.drop_last()[i] == x);
                    assert(s.drop_last().contains(x));
                    assert(d.contains(x));
                    if !d.contains(s.last()) {
                        let w = choose|w: int| 0 <= w < d.len() && d[w] == x;
                        assert(d.push(s.last())[w] == x);
                    }
                } else if !d.contains(s.last()) {
                    assert(d.push(s.last())[d.len() as int] == x);
                }
            }
            if distinct(s).contains(x) {
                let w = choose|w: int| 0 <= w < distinct(s).len() && distinct(s)[w] == x;
                if w < d.len() {
                    assert(d[w] == x);
                    assert(d.contains(x));
                    assert(s.drop_last().contains(x));
                    let i = choose|i: int| 0 <= i < s.drop_last().len() && s.drop_last()[i] == x;
                    assert(s[i] == x);
                } else {
                    assert(s[s.len() - 1] == x);
                }
            }
        }
        if !d.contains(s.last()) {
            assert forall|i: int, j: int|
                0 <= i < d.push(s.last()).len() && 0 <= j < d.push(s.last()).len() && i != j implies d.push(
                s.last(),
            )[i] != d.push(s.last())[j] by {
                if i < d.len() && j < d.len() {
                } else if i < d.len() {
                    assert(d[i] == d.push(s.last())[i]);
                } else if j < d.len() {
                    assert(d[j] == d.push(s.last())[j]);
                }
            }
        }
    }
}

proof fn lemma_group_empty_unless_key(es: Seq<Element>, by_file: bool, k: Seq<char>)
    requires
        !group_keys(es, by_file).contains(k),
    ensures
        group(es, by_file, k).len() == 0,
    decreases es.len(),
{
    if es.len() > 0 {
        assert(group_keys(es.drop_last(), by_file) =~= group_keys(es, by_file).drop_last());
        assert forall|x: Seq<char>| group_keys(es.drop_last(), by_file).contains(x) implies group_keys(es, by_file).contains(x) by {
            let i = choose|i: int| 0 <= i < group_keys(es.drop_last(), by_file).len() && group_keys(es.drop_last(), by_file)[i] == x;
            assert(group_keys(es, by_file)[i] == x);
        }
        lemma_group_empty_unless_key(es.drop_last(), by_file, k);
        assert(group_keys(es, by_file)[es.len() - 1] == group_key(es.last(), by_file));
    }
}

/// Grouping `es` by document (or by section) puts every element in exactly
/// one group: the group sizes add up to the number of elements.
proof fn lemma_groups_partition(es: Seq<Element>, by_file: bool)
    ensures
        group_total(es, by_file, distinct(group_keys(es, by_file)), distinct(group_keys(es, by_file)).len() as int)
            == es.len(),
    decreases es.len(),
{
    let ks = group_keys(es, by_file);
    let d = distinct(ks);
    if es.len() == 0 {
    } else {
        let es0 = es.drop_last();
        let ks0 = group_keys(es0, by_file);
        assert(ks0 =~= ks.drop_last());
        let d0 = distinct(ks0);
        lemma_groups_partition(es0, by_file);
        lemma_distinct_props(ks0);
        lemma_distinct_props(ks);
        let kx = group_key(es.last(), by_file);
        assert(ks.last() == kx);
        lemma_group_total_step(es, by_file, d, d.len() as int);
        assert(d.take(d.len() as int) =~= d);
        assert(d.contains(kx)) by {
            assert(ks[ks.len() - 1] == kx);
        }
        if d0.contains(kx) {
            assert(d == d0);
        } else {
            assert(d == d0.push(kx));
            lemma_group_total_prefix(es0, by_file, d, d0, d0.len() as int);
            lemma_group_empty_unless_key(es0, by_file, kx);
            assert(!ks0.contains(kx));
        }
    }
}

/// The number of element entries in the first `n` sections.
pub open spec fn section_entries(secs: Seq<SectionSummary>, n: int) -> nat
    decreases n,
{
    if n <= 0 {
        0
    } else {
        section_entries(secs, n - 1) + secs[n - 1].elements@.len()
    }
}

/// The number of element entries in the first `n` documents.
pub open spec fn summary_entries(files: Seq<FileSummary>, n: int) -> nat
    decreases n,
{
    if n <= 0 {
        0
    } else {
        summary_entries(files, n - 1) + section_entries(files[n - 1].sections@, files[n - 1].sections@.len() as int)
    }
}

proof fn lemma_sections_sum(fsum: FileSummary, name: Seq<char>, es: Seq<Element>, n: int)
    requires
        file_summarized(fsum, name, es),
        0 <= n <= fsum.sections@.len(),
    ensures
        section_entries(fsum.sections@, n) == group_total(es, false, section_names(es), n),
    decreases n,
{
    if n > 0 {
        lemma_sections_sum(fsum, name, es, n - 1);
        assert(section_summarized(fsum.sections@[n - 1], section_names(es)[n - 1], in_section(es, section_names(es)[n - 1])));
    }
}

proof fn lemma_files_sum(files: Seq<FileSummary>, es: Seq<Element>, n: int)
    requires
        files_summarized(files, es),
        0 <= n <= files.len(),
    ensures
        summary_entries(files, n) == group_total(es, true, file_names(es), n),
    decreases n,
{
    if n > 0 {
        lemma_files_sum(files, es, n - 1);
        let f = file_names(es)[n - 1];
        let fes = in_file(es, f);
        assert(file_summarized(files[n - 1], f, fes));
        lemma_sections_sum(files[n - 1], f, fes, files[n - 1].sections@.len() as int);
        lemma_groups_partition(fes, false);
    }
}

proof fn lemma_count_elements(es: Seq<Element>)
    ensures
        count_of(es, CounterKind::Element) == es.len(),
    decreases es.len(),
{
    if es.len() > 0 {
        lemma_count_elements(es.drop_last());
    }
}

/// A summary lists every summarized element exactly once: the entries of
/// all sections of all documents add up to the total element count.
pub proof fn lemma_summary_lists_each_once(s: Summary, es: Seq<Element>)
    requires
        files_summarized(s.files@, es),
        counters_of(s.global_counters, es),
    ensures
        summary_entries(s.files@, s.files@.len() as int) == s.global_counters.total_elements,
{
    lemma_files_sum(s.files@, es, s.files@.len() as int);
    lemma_groups_partition(es, true);
    lemma_count_elements(es);
}

/// The document (`by_file`) or the section of an element.
fn group_key_of<'a>(e: &'a Element, by_file: bool) -> (k: &'a String)
    ensures
        k@ == group_key(*e, by_file),
{
    if by_file {
        &e.file_path
    } else {
        &e.section
    }
}

/// The position of the first element of each group, the groups (by
/// document, or by section) in order of first appearance.
fn first_of_groups(es: &Vec<&Element>, by_file: bool) -> (r: Vec<usize>)
    ensures
        r@.len() == distinct(group_keys(derefs(es@), by_file)).len(),
        forall|g: int|
            0 <= g < r@.len() ==> #[trigger] r@[g] < es@.len() && group_key(*es@[r@[g] as int], by_file)
                == distinct(group_keys(derefs(es@), by_file))[g],
{
    let ghost ks = group_keys(derefs(es@), by_file);
    let n = es.len();
    let mut reps: Vec<usize> = Vec::new();
    let mut i: usize = 0;
    while i < n
        invariant
            i <= n,
            n == es@.len(),
            ks == group_keys(derefs(es@), by_file),
            reps@.len() == distinct(ks.take(i as int)).len(),
            forall|g: int|
                0 <= g < reps@.len() ==> #[trigger] reps@[g] < i && group_key(*es@[reps@[g] as int], by_file)
                    == distinct(ks.take(i as int))[g],
        decreases n - i,
    {
        let ghost d = distinct(ks.take(i as int));
        assert(ks.take(i + 1).drop_last() =~= ks.take(i as int));
        assert(ks.take(i + 1).last() == group_key(*es@[i as int], by_file));
        let key = group_key_of(es[i], by_file);
        let m = reps.len();
        let mut g: usize = 0;
        let mut found = false;
        while g < m
            invariant
                g <= m,
                m == reps@.len(),
                i < n,
                n == es@.len(),
                d == distinct(ks.take(i as int)),
                m == d.len(),
                key@ == group_key(*es@[i as int], by_file),
                forall|w: int|
                    0 <= w < reps@.len() ==> #[trigger] reps@[w] < i && group_key(*es@[reps@[w] as int], by_file)
                        == d[w],
                found ==> d.contains(key@),
                !found ==> forall|w: int| 0 <= w < g ==> d[w] != key@,
            decreases m - g,
        {
            if !found && *group_key_of(es[reps[g]], by_file) == *key {
                found = true;
                assert(d[g as int] == key@);
            }
            g = g + 1;
        }
        if !found {
            reps.push(i);
            assert(distinct(ks.take(i + 1)) == d.push(key@));
        } else {
            assert(distinct(ks.take(i + 1)) == d);
        }
        i = i + 1;
    }
    assert(ks.take(n as int) =~= ks);
    reps
}

fn select_file<'a>(es: &Vec<&'a Element>, f: &String) -> (r: Vec<&'a Element>)
    ensures
        derefs(r@) == in_file(derefs(es@), f@),
{
    let n = es.len();
    let mut r: Vec<&Element> = Vec::new();
    let mut j: usize = 0;
    while j < n
        invariant
            j <= n,
            n == es@.len(),
            derefs(r@) == in_file(derefs(es@).take(j as int), f@),
        decreases n - j,
    {
        assert(derefs(es@).take(j + 1).drop_last() =~= derefs(es@).take(j as int));
        assert(derefs(es@).take(j + 1).last() == *es@[j as int]);
        if es[j].file_path == *f {
            let ghost prev = r@;
            r.push(es[j]);
            assert(derefs(r@) =~= derefs(prev).push(*es@[j as int]));
        }
        j = j + 1;
    }
    assert(derefs(es@).take(n as int) =~= derefs(es@));
    r
}

fn select_section<'a>(es: &Vec<&'a Element>, s: &String) -> (r: Vec<&'a Element>)
    ensures
        derefs(r@) == in_section(derefs(es@), s@),
{
    let n = es.len();
    let mut r: Vec<&Element> = Vec::new();
    let mut j: usize = 0;
    while j < n
        invariant
            j <= n,
            n == es@.len(),
            derefs(r@) == in_section(derefs(es@).take(j as int), s@),
        decreases n - j,
    {
        assert(derefs(es@).take(j + 1).drop_last() =~= derefs(es@).take(j as int));
        assert(derefs(es@).take(j + 1).last() == *es@[j as int]);
        if es[j].section == *s {
            let ghost prev = r@;
            r.push(es[j]);
            assert(derefs(r@) =~= derefs(prev).push(*es@[j as int]));
        }
        j = j + 1;
    }
    assert(derefs(es@).take(n as int) =~= derefs(es@));
    r
}

proof fn lemma_filtered_members(es: Seq<Element>, f: Filters)
    ensures
        forall|j: int| 0 <= j < es.len() && f.accepts(#[trigger] es[j]) ==> filtered(es, f).contains(es[j]),
        forall|t: int|
            0 <= t < filtered(es, f).len() ==> f.accepts(#[trigger] filtered(es, f)[t]) && es.contains(
                filtered(es, f)[t],
            ),
    decreases es.len(),
{
    if es.len() > 0 {
        let d = es.drop_last();
        lemma_filtered_members(d, f);
        let m = filtered(d, f);
        let r = filtered(es, f);
        assert forall|j: int| 0 <= j < es.len() && f.accepts(#[trigger] es[j]) implies r.contains(es[j]) by {
            if j < d.len() {
                assert(d[j] == es[j]);
                assert(m.contains(d[j]));
                let w = choose|w: int| 0 <= w < m.len() && m[w] == d[j];
                if f.accepts(es.last()) {
                    assert(r[w] == m[w]);
                }
            } else {
                assert(es.last() == es[j]);
                assert(r[m.len() as int] == es[j]);
            }
        }
        assert forall|t: int| 0 <= t < r.len() implies f.accepts(#[trigger] r[t]) && es.contains(r[t]) by {
            if t < m.len() {
                assert(r[t] == m[t]);
                let w = choose|w: int| 0 <= w < d.len() && d[w] == m[t];
                assert(es[w] == d[w]);
            } else {
                assert(r[t] == es.last());
                assert(es[es.len() - 1] == es.last());
            }
        }
    }
}

proof fn lemma_in_section_contains(xs: Seq<Element>, x: Element)
    requires
        xs.contains(x),
    ensures
        in_section(xs, x.section@).contains(x),
        section_names(xs).contains(x.section@),
    decreases xs.len(),
{
    let d = xs.drop_last();
    let m = in_section(d, x.section@);
    let j = choose|j: int| 0 <= j < xs.len() && xs[j] == x;
    if j < xs.len() - 1 {
        assert(d[j] == x);
        lemma_in_section_contains(d, x);
        let w = choose|w: int| 0 <= w < m.len() && m[w] == x;
        if xs.last().section@ == x.section@ {
            assert(m.push(xs.last())[w] == x);
        }
    } else {
        assert(xs.last() == x);
        assert(m.push(xs.last())[m.len() as int] == x);
    }
    lemma_distinct_props(section_keys_of(xs));
    assert(section_keys_of(xs)[j] == x.section@);
}

proof fn lemma_in_file_within(xs: Seq<Element>, f: Seq<char>)
    ensures
        forall|t: int| 0 <= t < in_file(xs, f).len() ==> xs.contains(#[trigger] in_file(xs, f)[t]),
    decreases xs.len(),
{
    if xs.len() > 0 {
        let d = xs.drop_last();
        lemma_in_file_within(d, f);
        let m = in_file(d, f);
        assert forall|t: int| 0 <= t < in_file(xs, f).len() implies xs.contains(#[trigger] in_file(xs, f)[t]) by {
            if t < m.len() {
                assert(in_file(xs, f)[t] == m[t]);
                let w = choose|w: int| 0 <= w < d.len() && d[w] == m[t];
                assert(xs[w] == d[w]);
            } else {
                assert(xs[xs.len() - 1] == in_file(xs, f)[t]);
            }
        }
    }
}

proof fn lemma_in_section_within(xs: Seq<Element>, s: Seq<char>)
    ensures
        forall|t: int| 0 <= t < in_section(xs, s).len() ==> xs.contains(#[trigger] in_section(xs, s)[t]),
    decreases xs.len(),
{
    if xs.len() > 0 {
        let d = xs.drop_last();
        lemma_in_section_within(d, s);
        let m = in_section(d, s);
        assert forall|t: int| 0 <= t < in_section(xs, s).len() implies xs.contains(#[trigger] in_section(xs, s)[t]) by {
            if t < m.len() {
                assert(in_section(xs, s)[t] == m[t]);
                let w = choose|w: int| 0 <= w < d.len() && d[w] == m[t];
                assert(xs[w] == d[w]);
            } else {
                assert(xs[xs.len() - 1] == in_section(xs, s)[t]);
            }
        }
    }
}

/// Whether `files` lists element `x` under its document and its section.
pub open spec fn summary_lists(files: Seq<FileSummary>, x: Element) -> bool {
    exists|i: int, j: int, k: int|
        #![trigger files[i].sections@[j].elements@[k]]
        0 <= i < files.len() && 0 <= j < files[i].sections@.len() && 0 <= k
            < files[i].sections@[j].elements@.len() && files[i].file@ == x.file_path@
            && files[i].sections@[j].section@ == x.section@ && element_summarized(
            files[i].sections@[j].elements@[k],
            x,
        )
}

/// Whether `s` summarizes an element of `es` that passes `f`, of document
/// `file` and section `section`.
pub open spec fn summarizes_passing(s: ElementSummary, es: Seq<Element>, f: Filters, file: Seq<char>, section: Seq<char>) -> bool {
    exists|x: Element|
        #![trigger element_summarized(s, x)]
        es.contains(x) && f.accepts(x) && x.file_path@ == file && x.section@ == section && element_summarized(s, x)
}

/// A summary lists exactly the elements that pass the filters: each one
/// under its own document and section, and nothing else (every listed
/// entry, in the entry of some document and section, summarizes an element
/// of the model that passes the filters, of that document and section).
pub proof fn lemma_summary_lists_filtered(files: Seq<FileSummary>, es: Seq<Element>, f: Filters)
    requires
        files_summarized(files, filtered(es, f)),
    ensures
        forall|j: int| 0 <= j < es.len() && f.accepts(#[trigger] es[j]) ==> summary_lists(files, es[j]),
        forall|i: int, j: int, k: int|
            0 <= i < files.len() && 0 <= j < files[i].sections@.len() && 0 <= k
                < files[i].sections@[j].elements@.len() ==> summarizes_passing(
                #[trigger] files[i].sections@[j].elements@[k],
                es,
                f,
                files[i].file@,
                files[i].sections@[j].section@,
            ),
{
    let xs = filtered(es, f);
    lemma_filtered_members(es, f);
    assert forall|j: int| 0 <= j < es.len() && f.accepts(#[trigger] es[j]) implies summary_lists(files, es[j]) by {
        let x = es[j];
        assert(xs.contains(x));
        lemma_in_file_contains(xs, x);
        let names = file_names(xs);
        let i = choose|i: int| 0 <= i < names.len() && names[i] == x.file_path@;
        let fes = in_file(xs, names[i]);
        assert(file_summarized(files[i], names[i], fes));
        lemma_in_section_contains(fes, x);
        let secs = section_names(fes);
        let sj = choose|q: int| 0 <= q < secs.len() && secs[q] == x.section@;
        let ses = in_section(fes, secs[sj]);
        assert(section_summarized(files[i].sections@[sj], secs[sj], ses));
        let k = choose|q: int| 0 <= q < ses.len() && ses[q] == x;
        assert(element_summarized(files[i].sections@[sj].elements@[k], ses[k]));
        assert(files[i].sections@[sj].elements@[k] == files[i].sections@[sj].elements@[k]);
    }
    assert forall|i: int, j: int, k: int|
        0 <= i < files.len() && 0 <= j < files[i].sections@.len() && 0 <= k
            < files[i].sections@[j].elements@.len() implies summarizes_passing(
        #[trigger] files[i].sections@[j].elements@[k],
        es,
        f,
        files[i].file@,
        files[i].sections@[j].section@,
    ) by {
        let names = file_names(xs);
        let fes = in_file(xs, names[i]);
        assert(file_summarized(files[i], names[i], fes));
        let secs = section_names(fes);
        let ses = in_section(fes, secs[j]);
        assert(section_summarized(files[i].sections@[j], secs[j], ses));
        let x = ses[k];
        assert(element_summarized(files[i].sections@[j].elements@[k], x));
        lemma_in_section_within(fes, secs[j]);
        assert(fes.contains(x));
        let w = choose|w: int| 0 <= w < fes.len() && fes[w] == x;
        lemma_in_file_within(xs, names[i]);
        assert(xs.contains(fes[w]));
        let t = choose|t: int| 0 <= t < xs.len() && xs[t] == x;
        assert(f.accepts(xs[t]) && es.contains(xs[t]));
        assert(x.section@ == secs[j]) by {
            lemma_in_section_keys(fes, secs[j]);
            assert(x == in_section(fes, secs[j])[k]);
        }
        assert(x.file_path@ == names[i]) by {
            lemma_in_file_keys(xs, names[i]);
            assert(x == in_file(xs, names[i])[w]);
        }
        assert(files[i].file@ == names[i]);
        assert(es.contains(x) && f.accepts(x));
        assert(element_summarized(files[i].sections@[j].elements@[k], x));
    }
}

proof fn lemma_in_file_keys(xs: Seq<Element>, f: Seq<char>)
    ensures
        forall|t: int| 0 <= t < in_file(xs, f).len() ==> (#[trigger] in_file(xs, f)[t]).file_path@ == f,
    decreases xs.len(),
{
    if xs.len() > 0 {
        lemma_in_file_keys(xs.drop_last(), f);
        let m = in_file(xs.drop_last(), f);
        assert forall|t: int| 0 <= t < in_file(xs, f).len() implies (#[trigger] in_file(xs, f)[t]).file_path@ == f by {
            if t < m.len() {
                assert(in_file(xs, f)[t] == m[t]);
            }
        }
    }
}

proof fn lemma_in_section_keys(xs: Seq<Element>, s: Seq<char>)
    ensures
        forall|t: int| 0 <= t < in_section(xs, s).len() ==> (#[trigger] in_section(xs, s)[t]).section@ == s,
    decreases xs.len(),
{
    if xs.len() > 0 {
        lemma_in_section_keys(xs.drop_last(), s);
        let m = in_section(xs.drop_last(), s);
        assert forall|t: int| 0 <= t < in_section(xs, s).len() implies (#[trigger] in_section(xs, s)[t]).section@ == s by {
            if t < m.len() {
                assert(in_section(xs, s)[t] == m[t]);
            }
        }
    }
}

/// An element's summary gives its identifier, name, section, document and
/// content as they are, its type's metadata name, one entry per relation
/// in order, and, for a requirement, a verification count that is positive
/// exactly when a relation is a verification; for any other element both
/// counts are zero.
pub proof fn lemma_element_summary_fields(s: ElementSummary, e: Element)
    requires
        element_summarized(s, e),
    ensures
        s.identifier@ == e.identifier@,
        s.name@ == e.name@,
        s.section@ == e.section@,
        s.file@ == e.file_path@,
        s.content@ == e.content@,
        s.relations@.len() == e.relations@.len(),
        forall|q: int| 0 <= q < e.relations@.len() ==> (#[trigger] s.relations@[q]).relation_type@
            == e.relations@[q].relation_type.name@,
        e.element_type is Requirement ==> (s.verified_relations_count > 0 <==> exists|q: int|
            0 <= q < e.relations@.len() && #[trigger] e.relations@[q].relation_type.is_verification),
        e.element_type is Requirement ==> (s.satisfied_relations_count > 0 <==> exists|q: int|
            0 <= q < e.relations@.len() && #[trigger] e.relations@[q].relation_type.is_satisfaction
                && !e.relations@[q].relation_type.is_verification),
        !(e.element_type is Requirement) ==> s.verified_relations_count == 0 && s.satisfied_relations_count == 0,
{
    lemma_counts_positive(e.relations@);
    lemma_satisfied_only_positive(e.relations@);
    assert forall|q: int| 0 <= q < e.relations@.len() implies (#[trigger] s.relations@[q]).relation_type@
        == e.relations@[q].relation_type.name@ by {
        assert(relation_summarized(s.relations@[q], e.relations@[q]));
    }
}

fn relation_summary(r: &Relation) -> (s: RelationSummary)
    ensures
        relation_summarized(s, *r),
{
    let (target, link_type) = match &r.target.link {
        LinkType::Identifier(id) => (id.clone(), "identifier".to_owned()),
        LinkType::ExternalUrl(url) => (url.clone(), "external-url".to_owned()),
        LinkType::InternalPath(path) => (path.clone(), "internal-path".to_owned()),
    };
    RelationSummary {
        relation_type: r.relation_type.name.clone(),
        target: TargetSummary { target, link_type },
    }
}

fn requirement_counts(rs: &Vec<Relation>) -> (c: (usize, usize))
    ensures
        c.0 == verification_count(rs@),
        c.1 == satisfied_only_count(rs@),
{
    let n = rs.len();
    let mut v: usize = 0;
    let mut s: usize = 0;
    let mut i: usize = 0;
    while i < n
        invariant
            i <= n,
            n == rs@.len(),
            v == verification_count(rs@.take(i as int)),
            s == satisfied_only_count(rs@.take(i as int)),
            v + s <= i,
        decreases n - i,
    {
        assert(rs@.take(i + 1).drop_last() =~= rs@.take(i as int));
        if rs[i].relation_type.is_verification {
            v = v + 1;
        } else if rs[i].relation_type.is_satisfaction {
            s = s + 1;
        }
        i = i + 1;
    }
    assert(rs@.take(n as int) =~= rs@);
    (v, s)
}

fn element_summary(e: &Element) -> (s: ElementSummary)
    ensures
        element_summarized(s, *e),
{
    let (vc, sc) = match &e.element_type {
        ElementType::Requirement(_) => requirement_counts(&e.relations),
        _ => (0, 0),
    };
    let n = e.relations.len();
    let mut rels: Vec<RelationSummary> = Vec::new();
    let mut i: usize = 0;
    while i < n
        invariant
            i <= n,
            n == e.relations@.len(),
            rels@.len() == i,
            forall|k: int| 0 <= k < i ==> relation_summarized(#[trigger] rels@[k], e.relations@[k]),
        decreases n - i,
    {
        rels.push(relation_summary(&e.relations[i]));
        i = i + 1;
    }
    ElementSummary {
        identifier: e.identifier.clone(),
        name: e.name.clone(),
        section: e.section.clone(),
        file: e.file_path.clone(),
        element_type: e.element_type.as_str().to_owned(),
        content: e.content.clone(),
        verified_relations_count: vc,
        satisfied_relations_count: sc,
        relations: rels,
    }
}

fn count_element(c: &mut GlobalCounters, e: &Element, Ghost(es): Ghost<Seq<Element>>)
    requires
        counters_of(*old(c), es),
        es.len() < usize::MAX,
    ensures
        counters_of(*final(c), es.push(*e)),
{
    proof {
        lemma_count_bound(es, CounterKind::Element);
        lemma_count_bound(es, CounterKind::SystemRequirement);
        lemma_count_bound(es, CounterKind::UserRequirement);
        lemma_count_bound(es, CounterKind::TestVerification);
        lemma_count_bound(es, CounterKind::AnalysisVerification);
        lemma_count_bound(es, CounterKind::InspectionVerification);
        lemma_count_bound(es, CounterKind::DemonstrationVerification);
        lemma_count_bound(es, CounterKind::RequirementNotVerified);
        lemma_count_bound(es, CounterKind::RequirementNotSatisfied);
        assert(es.push(*e).drop_last() =~= es);
    }
    c.total_elements = c.total_elements + 1;
    match &e.element_type {
        ElementType::Requirement(req_t) => {
            match req_t {
                RequirementType::System => c.total_requirements_system = c.total_requirements_system + 1,
                RequirementType::User => c.total_requirements_user = c.total_requirements_user + 1,
            }
            let (vcount, scount) = requirement_counts(&e.relations);
            if vcount == 0 {
                c.requirements_not_verified = c.requirements_not_verified + 1;
            }
            if scount == 0 {
                c.requirements_not_satisfied = c.requirements_not_satisfied + 1;
            }
        },
        ElementType::Verification(ver_t) => {
            match ver_t {
                VerificationType::Default => c.total_verifications_test = c.total_verifications_test + 1,
                VerificationType::Test => c.total_verifications_test = c.total_verifications_test + 1,
                VerificationType::Analysis => c.total_verifications_analysis = c.total_verifications_analysis + 1,
                VerificationType::Inspection => c.total_verifications_inspection = c.total_verifications_inspection
                    + 1,
                VerificationType::Demonstration => c.total_verifications_demonstration =
                    c.total_verifications_demonstration + 1,
            }
        },
        _ => {},
    }
}

/// Builds the summary of the elements of `registry` that pass `filters`:
/// documents in order of first appearance, in each its sections in order of
/// first appearance, in each its elements in registry order, and the
/// global counters over those elements.
pub fn build_summary(registry: &ElementRegistry, filters: &Filters) -> (s: Summary)
    ensures
        files_summarized(s.files@, filtered(registry.elements@, *filters)),
        counters_of(s.global_counters, filtered(registry.elements@, *filters)),
{
    let ghost es = registry.elements@;
    let n = registry.elements.len();
    let mut counters = GlobalCounters {
        total_elements: 0,
        total_requirements_system: 0,
        total_requirements_user: 0,
        total_verifications_test: 0,
        total_verifications_analysis: 0,
        total_verifications_inspection: 0,
        total_verifications_demonstration: 0,
        requirements_not_verified: 0,
        requirements_not_satisfied: 0,
    };
    let mut fs: Vec<&Element> = Vec::new();
    let mut i: usize = 0;
    while i < n
        invariant
            i <= n,
            n == es.len(),
            es == registry.elements@,
            derefs(fs@) == filtered(es.take(i as int), *filters),
            fs@.len() <= i,
            counters_of(counters, derefs(fs@)),
        decreases n - i,
    {
        assert(es.take(i + 1).drop_last() =~= es.take(i as int));
        assert(es.take(i + 1).last() == es[i as int]);
        let elem = &registry.elements[i];
        if filters.matches(elem) {
            count_element(&mut counters, elem, Ghost(derefs(fs@)));
            let ghost prev = fs@;
            fs.push(elem);
            assert(derefs(fs@) =~= derefs(prev).push(*elem));
        }
        i = i + 1;
    }
    assert(es.take(n as int) =~= es);
    let ghost all = derefs(fs@);
    let file_reps = first_of_groups(&fs, true);
    let mut files: Vec<FileSummary> = Vec::new();
    let nf = file_reps.len();
    let mut g: usize = 0;
    while g < nf
        invariant
            g <= nf,
            nf == file_reps@.len(),
            all == derefs(fs@),
            nf == file_names(all).len(),
            forall|w: int|
                0 <= w < nf ==> #[trigger] file_reps@[w] < fs@.len() && fs@[file_reps@[w] as int].file_path@
                    == file_names(all)[w],
            files@.len() == g,
            forall|w: int|
                0 <= w < g ==> file_summarized(
                    #[trigger] files@[w],
                    file_names(all)[w],
                    in_file(all, file_names(all)[w]),
                ),
        decreases nf - g,
    {
        let file = &fs[file_reps[g]].file_path;
        let in_f = select_file(&fs, file);
        let ghost fes = derefs(in_f@);
        let sec_reps = first_of_groups(&in_f, false);
        let mut sections: Vec<SectionSummary> = Vec::new();
        let ns = sec_reps.len();
        let mut h: usize = 0;
        while h < ns
            invariant
                h <= ns,
                ns == sec_reps@.len(),
                fes == derefs(in_f@),
                ns == section_names(fes).len(),
                forall|w: int|
                    0 <= w < ns ==> #[trigger] sec_reps@[w] < in_f@.len() && in_f@[sec_reps@[w] as int].section@
                        == section_names(fes)[w],
                sections@.len() == h,
                forall|w: int|
                    0 <= w < h ==> section_summarized(
                        #[trigger] sections@[w],
                        section_names(fes)[w],
                        in_section(fes, section_names(fes)[w]),
                    ),
            decreases ns - h,
        {
            let section = &in_f[sec_reps[h]].section;
            let in_s = select_section(&in_f, section);
            let ghost ses = derefs(in_s@);
            let m = in_s.len();
            let mut elements: Vec<ElementSummary> = Vec::new();
            let mut k: usize = 0;
            while k < m
                invariant
                    k <= m,
                    m == in_s@.len(),
                    ses == derefs(in_s@),
                    elements@.len() == k,
                    forall|w: int| 0 <= w < k ==> element_summarized(#[trigger] elements@[w], ses[w]),
                decreases m - k,
            {
                elements.push(element_summary(in_s[k]));
                k = k + 1;
            }
            sections.push(SectionSummary { section: section.clone(), elements });
            h = h + 1;
        }
        files.push(FileSummary { file: file.clone(), sections });
        g = g + 1;
    }
    Summary { files, global_counters: counters }
}


/// The Cypher statement that creates the node of element `e` of section
/// `section` of document `file`.
pub open spec fn node_statement(file: Seq<char>, section: Seq<char>, e: ElementSummary) -> Seq<char> {
    "CREATE (:Element:"@ + replace_all(e.element_type@, "-"@, "_"@) + " { "@ + "id: \""@ + escaped(
        e.identifier@,
    ) + "\""@ + ", "@ + "name: \""@ + escaped(e.name@) + "\""@ + ", "@ + "file: \""@ + escaped(file)
        + "\""@ + ", "@ + "section: \""@ + escaped(section) + "\""@ + ", "@ + "element_type: \""@
        + e.element_type@ + "\""@ + ", "@ + "content: \""@ + escaped(e.content@) + "\""@ + " });"@
}

/// The Cypher statement that creates the relationship `r` of element `e`.
pub open spec fn relation_statement(e: ElementSummary, r: RelationSummary) -> Seq<char> {
    "MATCH (a:Element {id: \""@ + escaped(e.identifier@) + "\"}), (b:Element {id: \""@ + escaped(
        r.target.target@,
    ) + "\"}) CREATE (a)-"@ + "[:"@ + uppercase(r.relation_type@) + " {type: \""@
        + r.target.link_type@ + "\"}]"@ + "->(b);"@
}

proof fn lemma_holds_part(p: Seq<char>, x: Seq<char>, q: Seq<char>)
    ensures
        holds_text(p + x + q, x),
{
    let i = p.len() as int;
    assert((p + x + q).subrange(i, i + x.len()) =~= x);
}

/// The node statement of an element opens with the `Element` label and
/// the element's type (dashes turned into underscores), and gives the
/// element's identifier, name, document, section and content escaped, and
/// its type name as it is, each under its own key.
/// The node statement of an element opens with the `Element` label and
/// the element's type (dashes turned into underscores), and gives the
/// element's identifier, name, document, section and content escaped, and
/// its type name as it is, each under its own key.
pub proof fn lemma_node_statement_fields(file: Seq<char>, section: Seq<char>, e: ElementSummary)
    ensures
        holds_text(node_statement(file, section, e), "id: \""@ + escaped(e.identifier@) + "\""@),
        holds_text(node_statement(file, section, e), "name: \""@ + escaped(e.name@) + "\""@),
        holds_text(node_statement(file, section, e), "file: \""@ + escaped(file) + "\""@),
        holds_text(node_statement(file, section, e), "section: \""@ + escaped(section) + "\""@),
        holds_text(node_statement(file, section, e), "element_type: \""@ + e.element_type@ + "\""@),
        holds_text(node_statement(file, section, e), "content: \""@ + escaped(e.content@) + "\""@),
        node_statement(file, section, e).subrange(0, ("CREATE (:Element:"@ + replace_all(e.element_type@, "-"@, "_"@) + " { "@).len() as int) == "CREATE (:Element:"@ + replace_all(e.element_type@, "-"@, "_"@) + " { "@,
{
    let a0 = "CREATE (:Element:"@;
    let a1 = replace_all(e.element_type@, "-"@, "_"@);
    let a2 = " { "@;
    let a3 = "id: \""@;
    let a4 = escaped(e.identifier@);
    let a5 = "\""@;
    let a6 = ", "@;
    let a7 = "name: \""@;
    let a8 = escaped(e.name@);
    let a9 = "\""@;
    let a10 = ", "@;
    let a11 = "file: \""@;
    let a12 = escaped(file);
    let a13 = "\""@;
    let a14 = ", "@;
    let a15 = "section: \""@;
    let a16 = escaped(section);
    let a17 = "\""@;
    let a18 = ", "@;
    let a19 = "element_type: \""@;
    let a20 = e.element_type@;
    let a21 = "\""@;
    let a22 = ", "@;
    let a23 = "content: \""@;
    let a24 = escaped(e.content@);
    let a25 = "\""@;
    let a26 = " });"@;
    let t = node_statement(file, section, e);
    assert(t == a0 + a1 + a2 + a3 + a4 + a5 + a6 + a7 + a8 + a9 + a10 + a11 + a12 + a13 + a14 + a15 + a16 + a17 + a18 + a19 + a20 + a21 + a22 + a23 + a24 + a25 + a26);
    assert(holds_text(t, a3 + a4 + a5)) by {
        lemma_holds_tail3(a0 + a1 + a2, a3, a4, a5);
        lemma_holds_extend(a0 + a1 + a2 + a3 + a4 + a5, a3 + a4 + a5, a6);
        lemma_holds_extend(a0 + a1 + a2 + a3 + a4 + a5 + a6, a3 + a4 + a5, a7);
        lemma_holds_extend(a0 + a1 + a2 + a3 + a4 + a5 + a6 + a7, a3 + a4 + a5, a8);
        lemma_holds_extend(a0 + a1 + a2 + a3 + a4 + a5 + a6 + a7 + a8, a3 + a4 + a5, a9);
        lemma_holds_extend(a0 + a1 + a2 + a3 + a4 + a5 + a6 + a7 + a8 + a9, a3 + a4 + a5, a10);
        lemma_holds_extend(a0 + a1 + a2 + a3 + a4 + a5 + a6 + a7 + a8 + a9 + a10, a3 + a4 + a5, a11);
        lemma_holds_extend(a0 + a1 + a2 + a3 + a4 + a5 + a6 + a7 + a8 + a9 + a10 + a11, a3 + a4 + a5, a12);
        lemma_holds_extend(a0 + a1 + a2 + a3 + a4 + a5 + a6 + a7 + a8 + a9 + a10 + a11 + a12, a3 + a4 + a5, a13);
        lemma_holds_extend(a0 + a1 + a2 + a3 + a4 + a5 + a6 + a7 + a8 + a9 + a10 + a11 + a12 + a13, a3 + a4 + a5, a14);
        lemma_holds_extend(a0 + a1 + a2 + a3 + a4 + a5 + a6 + a7 + a8 + a9 + a10 + a11 + a12 + a13 + a14, a3 + a4 + a5, a15);
        lemma_holds_extend(a0 + a1 + a2 + a3 + a4 + a5 + a6 + a7 + a8 + a9 + a10 + a11 + a12 + a13 + a14 + a15, a3 + a4 + a5, a16);
        lemma_holds_extend(a0 + a1 + a2 + a3 + a4 + a5 + a6 + a7 + a8 + a9 + a10 + a11 + a12 + a13 + a14 + a15 + a16, a3 + a4 + a5, a17);
        lemma_holds_extend(a0 + a1 + a2 + a3 + a4 + a5 + a6 + a7 + a8 + a9 + a10 + a11 + a12 + a13 + a14 + a15 + a16 + a17, a3 + a4 + a5, a18);
        lemma_holds_extend(a0 + a1 + a2 + a3 + a4 + a5 + a6 + a7 + a8 + a9 + a10 + a11 + a12 + a13 + a14 + a15 + a16 + a17 + a18, a3 + a4 + a5, a19);
        lemma_holds_extend(a0 + a1 + a2 + a3 + a4 + a5 + a6 + a7 + a8 + a9 + a10 + a11 + a12 + a13 + a14 + a15 + a16 + a17 + a18 + a19, a3 + a4 + a5, a20);
        lemma_holds_extend(a0 + a1 + a2 + a3 + a4 + a5 + a6 + a7 + a8 + a9 + a10 + a11 + a12 + a13 + a14 + a15 + a16 + a17 + a18 + a19 + a20, a3 + a4 + a5, a21);
        lemma_holds_extend(a0 + a1 + a2 + a3 + a4 + a5 + a6 + a7 + a8 + a9 + a10 + a11 + a12 + a13 + a14 + a15 + a16 + a17 + a18 + a19 + a20 + a21, a3 + a4 + a5, a22);
        lemma_holds_extend(a0 + a1 + a2 + a3 + a4 + a5 + a6 + a7 + a8 + a9 + a10 + a11 + a12 + a13 + a14 + a15 + a16 + a17 + a18 + a19 + a20 + a21 + a22, a3 + a4 + a5, a23);
        lemma_holds_extend(a0 + a1 + a2 + a3 + a4 + a5 + a6 + a7 + a8 + a9 + a10 + a11 + a12 + a13 + a14 + a15 + a16 + a17 + a18 + a19 + a20 + a21 + a22 + a23, a3 + a4 + a5, a24);
        lemma_holds_extend(a0 + a1 + a2 + a3 + a4 + a5 + a6 + a7 + a8 + a9 + a10 + a11 + a12 + a13 + a14 + a15 + a16 + a17 + a18 + a19 + a20 + a21 + a22 + a23 + a24, a3 + a4 + a5, a25);
        lemma_holds_extend(a0 + a1 + a2 + a3 + a4 + a5 + a6 + a7 + a8 + a9 + a10 + a11 + a12 + a13 + a14 + a15 + a16 + a17 + a18 + a19 + a20 + a21 + a22 + a23 + a24 + a25, a3 + a4 + a5, a26);
    }
    assert(holds_text(t, a7 + a8 + a9)) by {
        lemma_holds_tail3(a0 + a1 + a2 + a3 + a4 + a5 + a6, a7, a8, a9);
        lemma_holds_extend(a0 + a1 + a2 + a3 + a4 + a5 + a6 + a7 + a8 + a9, a7 + a8 + a9, a10);
        lemma_holds_extend(a0 + a1 + a2 + a3 + a4 + a5 + a6 + a7 + a8 + a9 + a10, a7 + a8 + a9, a11);
        lemma_holds_extend(a0 + a1 + a2 + a3 + a4 + a5 + a6 + a7 + a8 + a9 + a10 + a11, a7 + a8 + a9, a12);
        lemma_holds_extend(a0 + a1 + a2 + a3 + a4 + a5 + a6 + a7 + a8 + a9 + a10 + a11 + a12, a7 + a8 + a9, a13);
        lemma_holds_extend(a0 + a1 + a2 + a3 + a4 + a5 + a6 + a7 + a8 + a9 + a10 + a11 + a12 + a13, a7 + a8 + a9, a14);
        lemma_holds_extend(a0 + a1 + a2 + a3 + a4 + a5 + a6 + a7 + a8 + a9 + a10 + a11 + a12 + a13 + a14, a7 + a8 + a9, a15);
        lemma_holds_extend(a0 + a1 + a2 + a3 + a4 + a5 + a6 + a7 + a8 + a9 + a10 + a11 + a12 + a13 + a14 + a15, a7 + a8 + a9, a16);
        lemma_holds_extend(a0 + a1 + a2 + a3 + a4 + a5 + a6 + a7 + a8 + a9 + a10 + a11 + a12 + a13 + a14 + a15 + a16, a7 + a8 + a9, a17);
        lemma_holds_extend(a0 + a1 + a2 + a3 + a4 + a5 + a6 + a7 + a8 + a9 + a10 + a11 + a12 + a13 + a14 + a15 + a16 + a17, a7 + a8 + a9, a18);
        lemma_holds_extend(a0 + a1 + a2 + a3 + a4 + a5 + a6 + a7 + a8 + a9 + a10 + a11 + a12 + a13 + a14 + a15 + a16 + a17 + a18, a7 + a8 + a9, a19);
        lemma_holds_extend(a0 + a1 + a2 + a3 + a4 + a5 + a6 + a7 + a8 + a9 + a10 + a11 + a12 + a13 + a14 + a15 + a16 + a17 + a18 + a19, a7 + a8 + a9, a20);
        lemma_holds_extend(a0 + a1 + a2 + a3 + a4 + a5 + a6 + a7 + a8 + a9 + a10 + a11 + a12 + a13 + a14 + a15 + a16 + a17 + a18 + a19 + a20, a7 + a8 + a9, a21);
        lemma_holds_extend(a0 + a1 + a2 + a3 + a4 + a5 + a6 + a7 + a8 + a9 + a10 + a11 + a12 + a13 + a14 + a15 + a16 + a17 + a18 + a19 + a20 + a21, a7 + a8 + a9, a22);
        lemma_holds_extend(a0 + a1 + a2 + a3 + a4 + a5 + a6 + a7 + a8 + a9 + a10 + a11 + a12 + a13 + a14 + a15 + a16 + a17 + a18 + a19 + a20 + a21 + a22, a7 + a8 + a9, a23);
        lemma_holds_extend(a0 + a1 + a2 + a3 + a4 + a5 + a6 + a7 + a8 + a9 + a10 + a11 + a12 + a13 + a14 + a15 + a16 + a17 + a18 + a19 + a20 + a21 + a22 + a23, a7 + a8 + a9, a24);
        lemma_holds_extend(a0 + a1 + a2 + a3 + a4 + a5 + a6 + a7 + a8 + a9 + a10 + a11 + a12 + a13 + a14 + a15 + a16 + a17 + a18 + a19 + a20 + a21 + a22 + a23 + a24, a7 + a8 + a9, a25);
        lemma_holds_extend(a0 + a1 + a2 + a3 + a4 + a5 + a6 + a7 + a8 + a9 + a10 + a11 + a12 + a13 + a14 + a15 + a16 + a17 + a18 + a19 + a20 + a21 + a22 + a23 + a24 + a25, a7 + a8 + a9, a26);
    }
    assert(holds_text(t, a11 + a12 + a13)) by {
        lemma_holds_tail3(a0 + a1 + a2 + a3 + a4 + a5 + a6 + a7 + a8 + a9 + a10, a11, a12, a13);
        lemma_holds_extend(a0 + a1 + a2 + a3 + a4 + a5 + a6 + a7 + a8 + a9 + a10 + a11 + a12 + a13, a11 + a12 + a13, a14);
        lemma_holds_extend(a0 + a1 + a2 + a3 + a4 + a5 + a6 + a7 + a8 + a9 + a10 + a11 + a12 + a13 + a14, a11 + a12 + a13, a15);
        lemma_holds_extend(a0 + a1 + a2 + a3 + a4 + a5 + a6 + a7 + a8 + a9 + a10 + a11 + a12 + a13 + a14 + a15, a11 + a12 + a13, a16);
        lemma_holds_extend(a0 + a1 + a2 + a3 + a4 + a5 + a6 + a7 + a8 + a9 + a10 + a11 + a12 + a13 + a14 + a15 + a16, a11 + a12 + a13, a17);
        lemma_holds_extend(a0 + a1 + a2 + a3 + a4 + a5 + a6 + a7 + a8 + a9 + a10 + a11 + a12 + a13 + a14 + a15 + a16 + a17, a11 + a12 + a13, a18);
        lemma_holds_extend(a0 + a1 + a2 + a3 + a4 + a5 + a6 + a7 + a8 + a9 + a10 + a11 + a12 + a13 + a14 + a15 + a16 + a17 + a18, a11 + a12 + a13, a19);
        lemma_holds_extend(a0 + a1 + a2 + a3 + a4 + a5 + a6 + a7 + a8 + a9 + a10 + a11 + a12 + a13 + a14 + a15 + a16 + a17 + a18 + a19, a11 + a12 + a13, a20);
        lemma_holds_extend(a0 + a1 + a2 + a3 + a4 + a5 + a6 + a7 + a8 + a9 + a10 + a11 + a12 + a13 + a14 + a15 + a16 + a17 + a18 + a19 + a20, a11 + a12 + a13, a21);
        lemma_holds_extend(a0 + a1 + a2 + a3 + a4 + a5 + a6 + a7 + a8 + a9 + a10 + a11 + a12 + a13 + a14 + a15 + a16 + a17 + a18 + a19 + a20 + a21, a11 + a12 + a13, a22);
        lemma_holds_extend(a0 + a1 + a2 + a3 + a4 + a5 + a6 + a7 + a8 + a9 + a10 + a11 + a12 + a13 + a14 + a15 + a16 + a17 + a18 + a19 + a20 + a21 + a22, a11 + a12 + a13, a23);
        lemma_holds_extend(a0 + a1 + a2 + a3 + a4 + a5 + a6 + a7 + a8 + a9 + a10 + a11 + a12 + a13 + a14 + a15 + a16 + a17 + a18 + a19 + a20 + a21 + a22 + a23, a11 + a12 + a13, a24);
        lemma_holds_extend(a0 + a1 + a2 + a3 + a4 + a5 + a6 + a7 + a8 + a9 + a10 + a11 + a12 + a13 + a14 + a15 + a16 + a17 + a18 + a19 + a20 + a21 + a22 + a23 + a24, a11 + a12 + a13, a25);
        lemma_holds_extend(a0 + a1 + a2 + a3 + a4 + a5 + a6 + a7 + a8 + a9 + a10 + a11 + a12 + a13 + a14 + a15 + a16 + a17 + a18 + a19 + a20 + a21 + a22 + a23 + a24 + a25, a11 + a12 + a13, a26);
    }
    assert(holds_text(t, a15 + a16 + a17)) by {
        lemma_holds_tail3(a0 + a1 + a2 + a3 + a4 + a5 + a6 + a7 + a8 + a9 + a10 + a11 + a12 + a13 + a14, a15, a16, a17);
        lemma_holds_extend(a0 + a1 + a2 + a3 + a4 + a5 + a6 + a7 + a8 + a9 + a10 + a11 + a12 + a13 + a14 + a15 + a16 + a17, a15 + a16 + a17, a18);
        lemma_holds_extend(a0 + a1 + a2 + a3 + a4 + a5 + a6 + a7 + a8 + a9 + a10 + a11 + a12 + a13 + a14 + a15 + a16 + a17 + a18, a15 + a16 + a17, a19);
        lemma_holds_extend(a0 + a1 + a2 + a3 + a4 + a5 + a6 + a7 + a8 + a9 + a10 + a11 + a12 + a13 + a14 + a15 + a16 + a17 + a18 + a19, a15 + a16 + a17, a20);
        lemma_holds_extend(a0 + a1 + a2 + a3 + a4 + a5 + a6 + a7 + a8 + a9 + a10 + a11 + a12 + a13 + a14 + a15 + a16 + a17 + a18 + a19 + a20, a15 + a16 + a17, a21);
        lemma_holds_extend(a0 + a1 + a2 + a3 + a4 + a5 + a6 + a7 + a8 + a9 + a10 + a11 + a12 + a13 + a14 + a15 + a16 + a17 + a18 + a19 + a20 + a21, a15 + a16 + a17, a22);
        lemma_holds_extend(a0 + a1 + a2 + a3 + a4 + a5 + a6 + a7 + a8 + a9 + a10 + a11 + a12 + a13 + a14 + a15 + a16 + a17 + a18 + a19 + a20 + a21 + a22, a15 + a16 + a17, a23);
        lemma_holds_extend(a0 + a1 + a2 + a3 + a4 + a5 + a6 + a7 + a8 + a9 + a10 + a11 + a12 + a13 + a14 + a15 + a16 + a17 + a18 + a19 + a20 + a21 + a22 + a23, a15 + a16 + a17, a24);
        lemma_holds_extend(a0 + a1 + a2 + a3 + a4 + a5 + a6 + a7 + a8 + a9 + a10 + a11 + a12 + a13 + a14 + a15 + a16 + a17 + a18 + a19 + a20 + a21 + a22 + a23 + a24, a15 + a16 + a17, a25);
        lemma_holds_extend(a0 + a1 + a2 + a3 + a4 + a5 + a6 + a7 + a8 + a9 + a10 + a11 + a12 + a13 + a14 + a15 + a16 + a17 + a18 + a19 + a20 + a21 + a22 + a23 + a24 + a25, a15 + a16 + a17, a26);
    }
    assert(holds_text(t, a19 + a20 + a21)) by {
        lemma_holds_tail3(a0 + a1 + a2 + a3 + a4 + a5 + a6 + a7 + a8 + a9 + a10 + a11 + a12 + a13 + a14 + a15 + a16 + a17 + a18, a19, a20, a21);
        lemma_holds_extend(a0 + a1 + a2 + a3 + a4 + a5 + a6 + a7 + a8 + a9 + a10 + a11 + a12 + a13 + a14 + a15 + a16 + a17 + a18 + a19 + a20 + a21, a19 + a20 + a21, a22);
        lemma_holds_extend(a0 + a1 + a2 + a3 + a4 + a5 + a6 + a7 + a8 + a9 + a10 + a11 + a12 + a13 + a14 + a15 + a16 + a17 + a18 + a19 + a20 + a21 + a22, a19 + a20 + a21, a23);
        lemma_holds_extend(a0 + a1 + a2 + a3 + a4 + a5 + a6 + a7 + a8 + a9 + a10 + a11 + a12 + a13 + a14 + a15 + a16 + a17 + a18 + a19 + a20 + a21 + a22 + a23, a19 + a20 + a21, a24);
        lemma_holds_extend(a0 + a1 + a2 + a3 + a4 + a5 + a6 + a7 + a8 + a9 + a10 + a11 + a12 + a13 + a14 + a15 + a16 + a17 + a18 + a19 + a20 + a21 + a22 + a23 + a24, a19 + a20 + a21, a25);
        lemma_holds_extend(a0 + a1 + a2 + a3 + a4 + a5 + a6 + a7 + a8 + a9 + a10 + a11 + a12 + a13 + a14 + a15 + a16 + a17 + a18 + a19 + a20 + a21 + a22 + a23 + a24 + a25, a19 + a20 + a21, a26);
    }
    assert(holds_text(t, a23 + a24 + a25)) by {
        lemma_holds_tail3(a0 + a1 + a2 + a3 + a4 + a5 + a6 + a7 + a8 + a9 + a10 + a11 + a12 + a13 + a14 + a15 + a16 + a17 + a18 + a19 + a20 + a21 + a22, a23, a24, a25);
        lemma_holds_extend(a0 + a1 + a2 + a3 + a4 + a5 + a6 + a7 + a8 + a9 + a10 + a11 + a12 + a13 + a14 + a15 + a16 + a17 + a18 + a19 + a20 + a21 + a22 + a23 + a24 + a25, a23 + a24 + a25, a26);
    }
    assert(t.subrange(0, (a0 + a1 + a2).len() as int) =~= a0 + a1 + a2);
}

proof fn lemma_holds_tail3(a: Seq<char>, b: Seq<char>, c: Seq<char>, d: Seq<char>)
    ensures
        holds_text(a + b + c + d, b + c + d),
{
    let i = a.len() as int;
    assert((a + b + c + d).subrange(i, i + (b + c + d).len()) =~= b + c + d);
}

proof fn lemma_holds_extend(t: Seq<char>, x: Seq<char>, y: Seq<char>)
    requires
        holds_text(t, x),
    ensures
        holds_text(t + y, x),
{
    let i = choose|i: int| 0 <= i && i + x.len() <= t.len() && #[trigger] t.subrange(i, i + x.len()) == x;
    assert((t + y).subrange(i, i + x.len()) =~= t.subrange(i, i + x.len()));
}

/// The relationship statement of a relation matches the element by its
/// escaped identifier and the target by its escaped text, and creates a
/// relationship named by the uppercased relation type, with the link type.
pub proof fn lemma_relation_statement_fields(e: ElementSummary, r: RelationSummary)
    ensures
        holds_text(relation_statement(e, r), "MATCH (a:Element {id: \""@ + escaped(e.identifier@) + "\"}), (b:Element {id: \""@),
        holds_text(relation_statement(e, r), "(b:Element {id: \""@ + escaped(r.target.target@) + "\"})"@),
        holds_text(relation_statement(e, r), "[:"@ + uppercase(r.relation_type@) + " {type: \""@ + r.target.link_type@ + "\"}]"@),
{
    let a1 = "MATCH (a:Element {id: \""@;
    let a2 = escaped(e.identifier@);
    let a3 = "\"}), (b:Element {id: \""@;
    let a4 = escaped(r.target.target@);
    let a5 = "\"}) CREATE (a)-"@;
    let a6 = "[:"@;
    let a7 = uppercase(r.relation_type@);
    let a8 = " {type: \""@;
    let a9 = r.target.link_type@;
    let a10 = "\"}]"@;
    let a11 = "->(b);"@;
    let t = relation_statement(e, r);
    assert(t =~= Seq::<char>::empty() + (a1 + a2 + a3) + (a4 + a5 + a6 + a7 + a8 + a9 + a10 + a11));
    lemma_holds_part(Seq::<char>::empty(), a1 + a2 + a3, a4 + a5 + a6 + a7 + a8 + a9 + a10 + a11);
    reveal_strlit("\"}), (b:Element {id: \"");
    reveal_strlit("(b:Element {id: \"");
    reveal_strlit("\"})");
    reveal_strlit("\"}) CREATE (a)-");
    reveal_strlit("\"}), ");
    reveal_strlit(" CREATE (a)-");
    assert(a3 =~= "\"}), "@ + "(b:Element {id: \""@);
    assert(a5 =~= "\"})"@ + " CREATE (a)-"@);
    let x2 = "(b:Element {id: \""@ + a4 + "\"})"@;
    assert(t =~= (a1 + a2 + "\"}), "@) + x2 + (" CREATE (a)-"@ + a6 + a7 + a8 + a9 + a10 + a11));
    lemma_holds_part(a1 + a2 + "\"}), "@, x2, " CREATE (a)-"@ + a6 + a7 + a8 + a9 + a10 + a11);
    let x3 = a6 + a7 + a8 + a9 + a10;
    assert(t =~= (a1 + a2 + a3 + a4 + a5) + x3 + a11);
    lemma_holds_part(a1 + a2 + a3 + a4 + a5, x3, a11);
}

/// The node statements of the first `n` elements of section `s`.
pub open spec fn section_node_statements(file: Seq<char>, s: SectionSummary, n: int) -> Seq<Seq<char>>
    decreases n,
{
    if n <= 0 {
        seq![]
    } else {
        section_node_statements(file, s, n - 1).push(node_statement(file, s.section@, s.elements@[n - 1]))
    }
}

/// The node statements of the first `n` sections of `f`.
pub open spec fn file_node_statements(f: FileSummary, n: int) -> Seq<Seq<char>>
    decreases n,
{
    if n <= 0 {
        seq![]
    } else {
        file_node_statements(f, n - 1) + section_node_statements(
            f.file@,
            f.sections@[n - 1],
            f.sections@[n - 1].elements@.len() as int,
        )
    }
}

/// The node statements of the first `n` documents.
pub open spec fn node_statements(files: Seq<FileSummary>, n: int) -> Seq<Seq<char>>
    decreases n,
{
    if n <= 0 {
        seq![]
    } else {
        node_statements(files, n - 1) + file_node_statements(files[n - 1], files[n - 1].sections@.len() as int)
    }
}

/// The relationship statements of the first `n` relations of `e`.
pub open spec fn element_relation_statements(e: ElementSummary, n: int) -> Seq<Seq<char>>
    decreases n,
{
    if n <= 0 {
        seq![]
    } else {
        element_relation_statements(e, n - 1).push(relation_statement(e, e.relations@[n - 1]))
    }
}

/// The relationship statements of the first `n` elements of `s`.
pub open spec fn section_relation_statements(s: SectionSummary, n: int) -> Seq<Seq<char>>
    decreases n,
{
    if n <= 0 {
        seq![]
    } else {
        section_relation_statements(s, n - 1) + element_relation_statements(
            s.elements@[n - 1],
            s.elements@[n - 1].relations@.len() as int,
        )
    }
}

/// The relationship statements of the first `n` sections of `f`.
pub open spec fn file_relation_statements(f: FileSummary, n: int) -> Seq<Seq<char>>
    decreases n,
{
    if n <= 0 {
        seq![]
    } else {
        file_relation_statements(f, n - 1) + section_relation_statements(
            f.sections@[n - 1],
            f.sections@[n - 1].elements@.len() as int,
        )
    }
}

/// The relationship statements of the first `n` documents.
pub open spec fn relation_statements(files: Seq<FileSummary>, n: int) -> Seq<Seq<char>>
    decreases n,
{
    if n <= 0 {
        seq![]
    } else {
        relation_statements(files, n - 1) + file_relation_statements(
            files[n - 1],
            files[n - 1].sections@.len() as int,
        )
    }
}

/// The Cypher text of a summary: every node statement, then every
/// relationship statement, one per line.
pub open spec fn cypher_text(files: Seq<FileSummary>) -> Seq<char> {
    join_lines(node_statements(files, files.len() as int) + relation_statements(files, files.len() as int))
}

/// The number of relation entries of the first `n` elements of `s`.
pub open spec fn section_relation_entries(s: SectionSummary, n: int) -> nat
    decreases n,
{
    if n <= 0 {
        0
    } else {
        section_relation_entries(s, n - 1) + s.elements@[n - 1].relations@.len()
    }
}

/// The number of relation entries of the first `n` sections of `f`.
pub open spec fn file_relation_entries(f: FileSummary, n: int) -> nat
    decreases n,
{
    if n <= 0 {
        0
    } else {
        file_relation_entries(f, n - 1) + section_relation_entries(
            f.sections@[n - 1],
            f.sections@[n - 1].elements@.len() as int,
        )
    }
}

/// The number of relation entries of the first `n` documents.
pub open spec fn relation_entries(files: Seq<FileSummary>, n: int) -> nat
    decreases n,
{
    if n <= 0 {
        0
    } else {
        relation_entries(files, n - 1) + file_relation_entries(files[n - 1], files[n - 1].sections@.len() as int)
    }
}

proof fn lemma_section_statement_counts(file: Seq<char>, s: SectionSummary, n: int)
    requires
        0 <= n <= s.elements@.len(),
    ensures
        section_node_statements(file, s, n).len() == n,
        section_relation_statements(s, n).len() == section_relation_entries(s, n),
    decreases n,
{
    if n > 0 {
        lemma_section_statement_counts(file, s, n - 1);
        let e = s.elements@[n - 1];
        lemma_element_statement_count(e, e.relations@.len() as int);
    }
}

proof fn lemma_element_statement_count(e: ElementSummary, n: int)
    requires
        0 <= n,
    ensures
        element_relation_statements(e, n).len() == n,
    decreases n,
{
    if n > 0 {
        lemma_element_statement_count(e, n - 1);
    }
}

proof fn lemma_file_statement_counts(f: FileSummary, n: int)
    requires
        0 <= n <= f.sections@.len(),
    ensures
        file_node_statements(f, n).len() == section_entries(f.sections@, n),
        file_relation_statements(f, n).len() == file_relation_entries(f, n),
    decreases n,
{
    if n > 0 {
        lemma_file_statement_counts(f, n - 1);
        let sec = f.sections@[n - 1];
        lemma_section_statement_counts(f.file@, sec, sec.elements@.len() as int);
    }
}

proof fn lemma_statement_counts(files: Seq<FileSummary>, n: int)
    requires
        0 <= n <= files.len(),
    ensures
        node_statements(files, n).len() == summary_entries(files, n),
        relation_statements(files, n).len() == relation_entries(files, n),
    decreases n,
{
    if n > 0 {
        lemma_statement_counts(files, n - 1);
        lemma_file_statement_counts(files[n - 1], files[n - 1].sections@.len() as int);
    }
}

/// The Cypher text of a summary holds one node statement per element it
/// lists and one relationship statement per relation it lists; for a
/// summary built from a model, the node statements number the summarized
/// elements.
pub proof fn lemma_cypher_statement_counts(s: Summary, es: Seq<Element>)
    requires
        files_summarized(s.files@, es),
        counters_of(s.global_counters, es),
    ensures
        node_statements(s.files@, s.files@.len() as int).len() == s.global_counters.total_elements,
        relation_statements(s.files@, s.files@.len() as int).len() == relation_entries(
            s.files@,
            s.files@.len() as int,
        ),
{
    lemma_statement_counts(s.files@, s.files@.len() as int);
    lemma_summary_lists_each_once(s, es);
}

proof fn lemma_contains_app(a: Seq<Seq<char>>, b: Seq<Seq<char>>, x: Seq<char>)
    ensures
        a.contains(x) ==> (a + b).contains(x),
        b.contains(x) ==> (a + b).contains(x),
{
    if a.contains(x) {
        let i = choose|i: int| 0 <= i < a.len() && a[i] == x;
        assert((a + b)[i] == x);
    }
    if b.contains(x) {
        let i = choose|i: int| 0 <= i < b.len() && b[i] == x;
        assert((a + b)[a.len() + i] == x);
    }
}

proof fn lemma_join_holds(ls: Seq<Seq<char>>, q: int)
    requires
        0 <= q < ls.len(),
    ensures
        holds_text(join_lines(ls), ls[q]),
    decreases ls.len(),
{
    if ls.len() == 1 {
        let z: int = 0;
        assert(ls[0].subrange(z, z + ls[0].len()) =~= ls[0]);
    } else {
        let d = ls.drop_last();
        let pre = join_lines(d) + seq!['\n'];
        if q == ls.len() - 1 {
            let i = pre.len() as int;
            assert((pre + ls.last()).subrange(i, i + ls[q].len()) =~= ls[q]);
        } else {
            lemma_join_holds(d, q);
            assert(d[q] == ls[q]);
            lemma_holds_extend(join_lines(d), ls[q], seq!['\n']);
            lemma_holds_extend(pre, ls[q], ls.last());
        }
    }
}

proof fn lemma_node_statements_contain(files: Seq<FileSummary>, n: int, i: int, j: int, k: int)
    requires
        0 <= i < n <= files.len(),
        0 <= j < files[i].sections@.len(),
        0 <= k < files[i].sections@[j].elements@.len(),
    ensures
        node_statements(files, n).contains(
            node_statement(files[i].file@, files[i].sections@[j].section@, files[i].sections@[j].elements@[k]),
        ),
    decreases n,
{
    let f = files[i];
    let sec = f.sections@[j];
    let x = node_statement(f.file@, sec.section@, sec.elements@[k]);
    if i == n - 1 {
        lemma_file_node_statements_contain(f, f.sections@.len() as int, j, k);
        lemma_contains_app(node_statements(files, n - 1), file_node_statements(f, f.sections@.len() as int), x);
    } else {
        lemma_node_statements_contain(files, n - 1, i, j, k);
        let g = files[n - 1];
        lemma_contains_app(node_statements(files, n - 1), file_node_statements(g, g.sections@.len() as int), x);
    }
}

proof fn lemma_file_node_statements_contain(f: FileSummary, n: int, j: int, k: int)
    requires
        0 <= j < n <= f.sections@.len(),
        0 <= k < f.sections@[j].elements@.len(),
    ensures
        file_node_statements(f, n).contains(
            node_statement(f.file@, f.sections@[j].section@, f.sections@[j].elements@[k]),
        ),
    decreases n,
{
    let sec = f.sections@[j];
    let x = node_statement(f.file@, sec.section@, sec.elements@[k]);
    let last = f.sections@[n - 1];
    let cur = section_node_statements(f.file@, last, last.elements@.len() as int);
    if j == n - 1 {
        lemma_section_node_statements_contain(f.file@, sec, sec.elements@.len() as int, k);
        lemma_contains_app(file_node_statements(f, n - 1), cur, x);
    } else {
        lemma_file_node_statements_contain(f, n - 1, j, k);
        lemma_contains_app(file_node_statements(f, n - 1), cur, x);
    }
}

proof fn lemma_section_node_statements_contain(file: Seq<char>, sec: SectionSummary, n: int, k: int)
    requires
        0 <= k < n <= sec.elements@.len(),
    ensures
        section_node_statements(file, sec, n).contains(node_statement(file, sec.section@, sec.elements@[k])),
    decreases n,
{
    let x = node_statement(file, sec.section@, sec.elements@[k]);
    let prev = section_node_statements(file, sec, n - 1);
    if k == n - 1 {
        assert(section_node_statements(file, sec, n)[prev.len() as int] == x);
    } else {
        lemma_section_node_statements_contain(file, sec, n - 1, k);
        let w = choose|w: int| 0 <= w < prev.len() && prev[w] == x;
        assert(section_node_statements(file, sec, n)[w] == x);
    }
}

proof fn lemma_relation_statements_contain(files: Seq<FileSummary>, n: int, i: int, j: int, k: int, q: int)
    requires
        0 <= i < n <= files.len(),
        0 <= j < files[i].sections@.len(),
        0 <= k < files[i].sections@[j].elements@.len(),
        0 <= q < files[i].sections@[j].elements@[k].relations@.len(),
    ensures
        relation_statements(files, n).contains(
            relation_statement(files[i].sections@[j].elements@[k], files[i].sections@[j].elements@[k].relations@[q]),
        ),
    decreases n,
{
    let e = files[i].sections@[j].elements@[k];
    let x = relation_statement(e, e.relations@[q]);
    let g = files[n - 1];
    let cur = file_relation_statements(g, g.sections@.len() as int);
    if i == n - 1 {
        lemma_file_relation_statements_contain(g, g.sections@.len() as int, j, k, q);
    } else {
        lemma_relation_statements_contain(files, n - 1, i, j, k, q);
    }
    lemma_contains_app(relation_statements(files, n - 1), cur, x);
}

proof fn lemma_file_relation_statements_contain(f: FileSummary, n: int, j: int, k: int, q: int)
    requires
        0 <= j < n <= f.sections@.len(),
        0 <= k < f.sections@[j].elements@.len(),
        0 <= q < f.sections@[j].elements@[k].relations@.len(),
    ensures
        file_relation_statements(f, n).contains(
            relation_statement(f.sections@[j].elements@[k], f.sections@[j].elements@[k].relations@[q]),
        ),
    decreases n,
{
    let e = f.sections@[j].elements@[k];
    let x = relation_statement(e, e.relations@[q]);
    let last = f.sections@[n - 1];
    let cur = section_relation_statements(last, last.elements@.len() as int);
    if j == n - 1 {
        lemma_section_relation_statements_contain(last, last.elements@.len() as int, k, q);
    } else {
        lemma_file_relation_statements_contain(f, n - 1, j, k, q);
    }
    lemma_contains_app(file_relation_statements(f, n - 1), cur, x);
}

proof fn lemma_section_relation_statements_contain(sec: SectionSummary, n: int, k: int, q: int)
    requires
        0 <= k < n <= sec.elements@.len(),
        0 <= q < sec.elements@[k].relations@.len(),
    ensures
        section_relation_statements(sec, n).contains(relation_statement(sec.elements@[k], sec.elements@[k].relations@[q])),
    decreases n,
{
    let e = sec.elements@[k];
    let x = relation_statement(e, e.relations@[q]);
    let last = sec.elements@[n - 1];
    let cur = element_relation_statements(last, last.relations@.len() as int);
    if k == n - 1 {
        lemma_element_relation_statements_contain(e, e.relations@.len() as int, q);
    } else {
        lemma_section_relation_statements_contain(sec, n - 1, k, q);
    }
    lemma_contains_app(section_relation_statements(sec, n - 1), cur, x);
}

proof fn lemma_element_relation_statements_contain(e: ElementSummary, n: int, q: int)
    requires
        0 <= q < n <= e.relations@.len(),
    ensures
        element_relation_statements(e, n).contains(relation_statement(e, e.relations@[q])),
    decreases n,
{
    let x = relation_statement(e, e.relations@[q]);
    let prev = element_relation_statements(e, n - 1);
    if q == n - 1 {
        assert(element_relation_statements(e, n)[prev.len() as int] == x);
    } else {
        lemma_element_relation_statements_contain(e, n - 1, q);
        let w = choose|w: int| 0 <= w < prev.len() && prev[w] == x;
        assert(element_relation_statements(e, n)[w] == x);
    }
}

/// The Cypher text of a summary holds, each on a line of its own, the node
/// statement of every element it lists (with that element's document and
/// section) and the relationship statement of every relation of it.
pub proof fn lemma_cypher_lists(files: Seq<FileSummary>, i: int, j: int, k: int)
    requires
        0 <= i < files.len(),
        0 <= j < files[i].sections@.len(),
        0 <= k < files[i].sections@[j].elements@.len(),
    ensures
        holds_text(
            cypher_text(files),
            node_statement(files[i].file@, files[i].sections@[j].section@, files[i].sections@[j].elements@[k]),
        ),
        forall|q: int|
            0 <= q < files[i].sections@[j].elements@[k].relations@.len() ==> holds_text(
                cypher_text(files),
                #[trigger] relation_statement(
                    files[i].sections@[j].elements@[k],
                    files[i].sections@[j].elements@[k].relations@[q],
                ),
            ),
{
    let n = files.len() as int;
    let nodes = node_statements(files, n);
    let rels = relation_statements(files, n);
    let e = files[i].sections@[j].elements@[k];
    let x = node_statement(files[i].file@, files[i].sections@[j].section@, e);
    lemma_node_statements_contain(files, n, i, j, k);
    lemma_contains_app(nodes, rels, x);
    let w = choose|w: int| 0 <= w < (nodes + rels).len() && (nodes + rels)[w] == x;
    lemma_join_holds(nodes + rels, w);
    assert forall|q: int| 0 <= q < e.relations@.len() implies holds_text(
        cypher_text(files),
        #[trigger] relation_statement(e, e.relations@[q]),
    ) by {
        let y = relation_statement(e, e.relations@[q]);
        lemma_relation_statements_contain(files, n, i, j, k, q);
        lemma_contains_app(nodes, rels, y);
        let v = choose|v: int| 0 <= v < (nodes + rels).len() && (nodes + rels)[v] == y;
        lemma_join_holds(nodes + rels, v);
    }
}

fn append_field(r: &mut String, key: &str, value: &str)
    ensures
        final(r)@ == old(r)@ + key@ + value@ + "\""@,
{
    r.append(key);
    r.append(value);
    r.append("\"");
    assert(final(r)@ =~= old(r)@ + key@ + value@ + "\""@);
}

fn node_statement_of(file: &String, section: &String, e: &ElementSummary) -> (r: String)
    ensures
        r@ == node_statement(file@, section@, *e),
{
    proof {
        reveal_strlit("-");
    }
    let mut r = "CREATE (:Element:".to_owned();
    let label = replace_str(e.element_type.as_str(), "-", "_");
    r.append(label.as_str());
    r.append(" { ");
    let id = escape(e.identifier.as_str());
    append_field(&mut r, "id: \"", id.as_str());
    r.append(", ");
    let name = escape(e.name.as_str());
    append_field(&mut r, "name: \"", name.as_str());
    r.append(", ");
    let f = escape(file.as_str());
    append_field(&mut r, "file: \"", f.as_str());
    r.append(", ");
    let sec = escape(section.as_str());
    append_field(&mut r, "section: \"", sec.as_str());
    r.append(", ");
    append_field(&mut r, "element_type: \"", e.element_type.as_str());
    r.append(", ");
    let content = escape(e.content.as_str());
    append_field(&mut r, "content: \"", content.as_str());
    r.append(" });");
    assert(r@ =~= node_statement(file@, section@, *e));
    r
}

fn relation_statement_of(e: &ElementSummary, rel: &RelationSummary) -> (r: String)
    ensures
        r@ == relation_statement(*e, *rel),
{
    let mut r = "MATCH (a:Element {id: \"".to_owned();
    let a = escape(e.identifier.as_str());
    r.append(a.as_str());
    r.append("\"}), (b:Element {id: \"");
    let b = escape(rel.target.target.as_str());
    r.append(b.as_str());
    r.append("\"}) CREATE (a)-");
    r.append("[:");
    let t = to_uppercase(rel.relation_type.as_str());
    r.append(t.as_str());
    r.append(" {type: \"");
    r.append(rel.target.link_type.as_str());
    r.append("\"}]");
    r.append("->(b);");
    assert(r@ =~= relation_statement(*e, *rel));
    r
}

fn push_statement(out: &mut String, stmt: &String, started: bool, Ghost(acc): Ghost<Seq<Seq<char>>>)
    requires
        old(out)@ == join_lines(acc),
        started == (acc.len() > 0),
    ensures
        final(out)@ == join_lines(acc.push(stmt@)),
{
    assert(acc.push(stmt@).drop_last() =~= acc);
    if started {
        push_char(out, '\n');
    }
    out.append(stmt.as_str());
}

/// Renders the summary as Cypher statements, one per line: the node of each
/// element (document by document, section by section), then the
/// relationship of each relation of each element in the same order.
pub fn print_summary_cypher(summary: &Summary) -> (r: String)
    ensures
        r@ == cypher_text(summary.files@),
{
    let ghost files = summary.files@;
    let mut out = String::new();
    let mut started = false;
    let ghost mut acc: Seq<Seq<char>> = seq![];
    let nf = summary.files.len();
    let mut i: usize = 0;
    while i < nf
        invariant
            i <= nf,
            nf == files.len(),
            files == summary.files@,
            acc == node_statements(files, i as int),
            out@ == join_lines(acc),
            started == (acc.len() > 0),
        decreases nf - i,
    {
        let fsum = &summary.files[i];
        let ns = fsum.sections.len();
        let mut j: usize = 0;
        while j < ns
            invariant
                j <= ns,
                i < nf,
                nf == files.len(),
                files == summary.files@,
                *fsum == files[i as int],
                ns == fsum.sections@.len(),
                acc == node_statements(files, i as int) + file_node_statements(*fsum, j as int),
                out@ == join_lines(acc),
                started == (acc.len() > 0),
            decreases ns - j,
        {
            let ssum = &fsum.sections[j];
            let ne = ssum.elements.len();
            let mut k: usize = 0;
            while k < ne
                invariant
                    k <= ne,
                    j < ns,
                    ns == fsum.sections@.len(),
                    *ssum == fsum.sections@[j as int],
                    ne == ssum.elements@.len(),
                    acc == node_statements(files, i as int) + file_node_statements(*fsum, j as int)
                        + section_node_statements(fsum.file@, *ssum, k as int),
                    out@ == join_lines(acc),
                    started == (acc.len() > 0),
                decreases ne - k,
            {
                let stmt = node_statement_of(&fsum.file, &ssum.section, &ssum.elements[k]);
                push_statement(&mut out, &stmt, started, Ghost(acc));
                started = true;
                proof {
                    acc = acc.push(stmt@);
                }
                assert(acc =~= node_statements(files, i as int) + file_node_statements(*fsum, j as int)
                    + section_node_statements(fsum.file@, *ssum, k + 1));
                k = k + 1;
            }
            assert(acc =~= node_statements(files, i as int) + file_node_statements(*fsum, j + 1));
            j = j + 1;
        }
        assert(acc =~= node_statements(files, i + 1));
        i = i + 1;
    }
    let ghost nodes = acc;
    let mut i: usize = 0;
    assert(acc =~= nodes + relation_statements(files, 0));
    while i < nf
        invariant
            i <= nf,
            nf == files.len(),
            files == summary.files@,
            nodes == node_statements(files, nf as int),
            acc == nodes + relation_statements(files, i as int),
            out@ == join_lines(acc),
            started == (acc.len() > 0),
        decreases nf - i,
    {
        let fsum = &summary.files[i];
        let ns = fsum.sections.len();
        let mut j: usize = 0;
        while j < ns
            invariant
                j <= ns,
                i < nf,
                nf == files.len(),
                files == summary.files@,
                *fsum == files[i as int],
                ns == fsum.sections@.len(),
                acc == nodes + relation_statements(files, i as int) + file_relation_statements(*fsum, j as int),
                out@ == join_lines(acc),
                started == (acc.len() > 0),
            decreases ns - j,
        {
            let ssum = &fsum.sections[j];
            let ne = ssum.elements.len();
            let mut k: usize = 0;
            while k < ne
                invariant
                    k <= ne,
                    j < ns,
                    ns == fsum.sections@.len(),
                    *ssum == fsum.sections@[j as int],
                    ne == ssum.elements@.len(),
                    acc == nodes + relation_statements(files, i as int) + file_relation_statements(*fsum, j as int)
                        + section_relation_statements(*ssum, k as int),
                    out@ == join_lines(acc),
                    started == (acc.len() > 0),
                decreases ne - k,
            {
                let e = &ssum.elements[k];
                let nr = e.relations.len();
                let mut q: usize = 0;
                while q < nr
                    invariant
                        q <= nr,
                        k < ne,
                        ne == ssum.elements@.len(),
                        *e == ssum.elements@[k as int],
                        nr == e.relations@.len(),
                        acc == nodes + relation_statements(files, i as int) + file_relation_statements(
                            *fsum,
                            j as int,
                        ) + section_relation_statements(*ssum, k as int) + element_relation_statements(*e, q as int),
                        out@ == join_lines(acc),
                        started == (acc.len() > 0),
                    decreases nr - q,
                {
                    let stmt = relation_statement_of(e, &e.relations[q]);
                    push_statement(&mut out, &stmt, started, Ghost(acc));
                    started = true;
                    proof {
                        acc = acc.push(stmt@);
                    }
                    assert(acc =~= nodes + relation_statements(files, i as int) + file_relation_statements(
                        *fsum,
                        j as int,
                    ) + section_relation_statements(*ssum, k as int) + element_relation_statements(*e, q + 1));
                    q = q + 1;
                }
                assert(acc =~= nodes + relation_statements(files, i as int) + file_relation_statements(
                    *fsum,
                    j as int,
                ) + section_relation_statements(*ssum, k + 1));
                k = k + 1;
            }
            assert(acc =~= nodes + relation_statements(files, i as int) + file_relation_statements(*fsum, j + 1));
            j = j + 1;
        }
        assert(acc =~= nodes + relation_statements(files, i + 1));
        i = i + 1;
    }
    out
}


/// Verification counts by kind (a default verification counts as a test).
pub struct VerificationTypeCounts {
    pub test: usize,
    pub analysis: usize,
    pub inspection: usize,
    pub demonstration: usize,
}

/// The totals of a coverage report.
pub struct CoverageSummary {
    pub total_verifications: usize,
    pub total_satisfied: usize,
    pub total_unsatisfied: usize,
    pub verification_types: VerificationTypeCounts,
}

/// A verification in a coverage report, with the targets of its
/// satisfaction relations.
pub struct VerificationDetails {
    pub identifier: String,
    pub name: String,
    pub section: String,
    pub verification_type: String,
    pub satisfied_by: Vec<String>,
}

/// The verifications of one document.
pub struct FileVerifications {
    pub file: String,
    pub verifications: Vec<VerificationDetails>,
}

/// Verifications grouped by document.
pub struct VerificationsByFile {
    pub files: Vec<FileVerifications>,
}

/// Which verifications are satisfied (have a satisfaction relation) and
/// which are not. The coverage percentage is `total_satisfied` over
/// `total_verifications`, times 100, or 0 when there are no verifications.
pub struct CoverageReport {
    pub summary: CoverageSummary,
    pub satisfied_verifications: VerificationsByFile,
    pub unsatisfied_verifications: VerificationsByFile,
}

/// The verification elements of `es`, in order.
pub open spec fn verifications_of(es: Seq<Element>) -> Seq<Element>
    decreases es.len(),
{
    if es.len() == 0 {
        seq![]
    } else {
        let m = verifications_of(es.drop_last());
        if es.last().element_type is Verification {
            m.push(es.last())
        } else {
            m
        }
    }
}

/// The targets of the satisfaction relations among `rs`, in order.
pub open spec fn satisfying_targets(rs: Seq<Relation>) -> Seq<Seq<char>>
    decreases rs.len(),
{
    if rs.len() == 0 {
        seq![]
    } else {
        let m = satisfying_targets(rs.drop_last());
        if rs.last().relation_type.is_satisfaction {
            m.push(link_text(rs.last().target.link))
        } else {
            m
        }
    }
}

/// The elements of `es` that are satisfied (`want`) or not (`!want`).
pub open spec fn with_satisfaction(es: Seq<Element>, want: bool) -> Seq<Element>
    decreases es.len(),
{
    if es.len() == 0 {
        seq![]
    } else {
        let m = with_satisfaction(es.drop_last(), want);
        if (satisfying_targets(es.last().relations@).len() > 0) == want {
            m.push(es.last())
        } else {
            m
        }
    }
}

/// Whether `d` describes verification `e`.
pub open spec fn details_of(d: VerificationDetails, e: Element) -> bool {
    &&& d.identifier@ == e.identifier@
    &&& d.name@ == e.name@
    &&& d.section@ == e.section@
    &&& d.verification_type@ == metadata_name(e.element_type)
    &&& d.satisfied_by@.map_values(|t: String| t@) == satisfying_targets(e.relations@)
}

/// Whether `v` lists the verifications `es` document by document (in order
/// of first appearance), each document's in order.
pub open spec fn grouped_by_file(v: VerificationsByFile, es: Seq<Element>) -> bool {
    let names = file_names(es);
    &&& v.files@.len() == names.len()
    &&& forall|i: int|
        0 <= i < names.len() ==> {
            let fv = #[trigger] v.files@[i];
            let members = in_file(es, names[i]);
            &&& fv.file@ == names[i]
            &&& fv.verifications@.len() == members.len()
            &&& forall|k: int| 0 <= k < members.len() ==> details_of(#[trigger] fv.verifications@[k], members[k])
        }
}

/// Whether `r` is the coverage report of the elements `es`: its totals and
/// counts by kind, and the satisfied and unsatisfied verifications grouped
/// by document.
pub open spec fn coverage_report_of(r: CoverageReport, es: Seq<Element>) -> bool {
    let vs = verifications_of(es);
    let sat = with_satisfaction(vs, true);
    let unsat = with_satisfaction(vs, false);
    &&& r.summary.total_verifications == vs.len()
    &&& r.summary.total_satisfied == sat.len()
    &&& r.summary.total_unsatisfied == unsat.len()
    &&& r.summary.verification_types.test == count_of(es, CounterKind::TestVerification)
    &&& r.summary.verification_types.analysis == count_of(es, CounterKind::AnalysisVerification)
    &&& r.summary.verification_types.inspection == count_of(es, CounterKind::InspectionVerification)
    &&& r.summary.verification_types.demonstration == count_of(es, CounterKind::DemonstrationVerification)
    &&& grouped_by_file(r.satisfied_verifications, sat)
    &&& grouped_by_file(r.unsatisfied_verifications, unsat)
}

proof fn lemma_verification_counts(es: Seq<Element>, k: CounterKind)
    requires
        k is TestVerification || k is AnalysisVerification || k is InspectionVerification
            || k is DemonstrationVerification,
    ensures
        count_of(es, k) == count_of(verifications_of(es), k),
    decreases es.len(),
{
    if es.len() > 0 {
        lemma_verification_counts(es.drop_last(), k);
        let v = verifications_of(es);
        if es.last().element_type is Verification {
            assert(v.drop_last() =~= verifications_of(es.drop_last()));
            assert(v.last() == es.last());
        }
    }
}

/// Elements that are not verifications do not change the coverage report:
/// when two models have the same verifications in the same order, any
/// coverage report of one is the coverage report of the other.
pub proof fn lemma_coverage_ignores_other_elements(r: CoverageReport, es: Seq<Element>, es2: Seq<Element>)
    requires
        coverage_report_of(r, es),
        verifications_of(es2) == verifications_of(es),
    ensures
        coverage_report_of(r, es2),
{
    lemma_verification_counts(es, CounterKind::TestVerification);
    lemma_verification_counts(es2, CounterKind::TestVerification);
    lemma_verification_counts(es, CounterKind::AnalysisVerification);
    lemma_verification_counts(es2, CounterKind::AnalysisVerification);
    lemma_verification_counts(es, CounterKind::InspectionVerification);
    lemma_verification_counts(es2, CounterKind::InspectionVerification);
    lemma_verification_counts(es, CounterKind::DemonstrationVerification);
    lemma_verification_counts(es2, CounterKind::DemonstrationVerification);
}

proof fn lemma_satisfying_targets_nonempty(rs: Seq<Relation>)
    ensures
        satisfying_targets(rs).len() > 0 <==> exists|j: int|
            0 <= j < rs.len() && #[trigger] rs[j].relation_type.is_satisfaction,
    decreases rs.len(),
{
    if rs.len() > 0 {
        let d = rs.drop_last();
        lemma_satisfying_targets_nonempty(d);
        assert(rs.last() == rs[rs.len() - 1]);
        if rs.last().relation_type.is_satisfaction {
            assert(rs[rs.len() - 1].relation_type.is_satisfaction);
        }
        if exists|j: int| 0 <= j < d.len() && #[trigger] d[j].relation_type.is_satisfaction {
            let j = choose|j: int| 0 <= j < d.len() && #[trigger] d[j].relation_type.is_satisfaction;
            assert(rs[j] == d[j]);
            assert(rs[j].relation_type.is_satisfaction);
        }
        if exists|j: int| 0 <= j < rs.len() && #[trigger] rs[j].relation_type.is_satisfaction {
            let j = choose|j: int| 0 <= j < rs.len() && #[trigger] rs[j].relation_type.is_satisfaction;
            if j < d.len() {
                assert(d[j] == rs[j]);
                assert(d[j].relation_type.is_satisfaction);
            }
        }
    }
}

/// The coverage report of an empty model counts nothing.
pub proof fn lemma_coverage_empty(r: CoverageReport)
    requires
        coverage_report_of(r, seq![]),
    ensures
        r.summary.total_verifications == 0,
        r.summary.total_satisfied == 0,
        r.summary.total_unsatisfied == 0,
        r.summary.verification_types.test == 0,
        r.summary.verification_types.analysis == 0,
        r.summary.verification_types.inspection == 0,
        r.summary.verification_types.demonstration == 0,
{
}

/// Each coverage counter counts exactly its own kind: adding an element to
/// a model adds one to the counter of its kind of verification (a default
/// verification counting as a test) and leaves the other kinds as they
/// were; a verification adds one verification, satisfied exactly when it
/// holds a satisfaction relation; any other element changes no total.
pub proof fn lemma_coverage_step(r1: CoverageReport, r2: CoverageReport, es: Seq<Element>, e: Element)
    requires
        coverage_report_of(r1, es),
        coverage_report_of(r2, es.push(e)),
    ensures
        e.element_type == ElementType::Verification(VerificationType::Default) || e.element_type
            == ElementType::Verification(VerificationType::Test) ==> {
            &&& r2.summary.verification_types.test == r1.summary.verification_types.test + 1
            &&& r2.summary.verification_types.analysis == r1.summary.verification_types.analysis
            &&& r2.summary.verification_types.inspection == r1.summary.verification_types.inspection
            &&& r2.summary.verification_types.demonstration == r1.summary.verification_types.demonstration
        },
        e.element_type == ElementType::Verification(VerificationType::Analysis) ==> {
            &&& r2.summary.verification_types.test == r1.summary.verification_types.test
            &&& r2.summary.verification_types.analysis == r1.summary.verification_types.analysis + 1
            &&& r2.summary.verification_types.inspection == r1.summary.verification_types.inspection
            &&& r2.summary.verification_types.demonstration == r1.summary.verification_types.demonstration
        },
        e.element_type == ElementType::Verification(VerificationType::Inspection) ==> {
            &&& r2.summary.verification_types.test == r1.summary.verification_types.test
            &&& r2.summary.verification_types.analysis == r1.summary.verification_types.analysis
            &&& r2.summary.verification_types.inspection == r1.summary.verification_types.inspection + 1
            &&& r2.summary.verification_types.demonstration == r1.summary.verification_types.demonstration
        },
        e.element_type == ElementType::Verification(VerificationType::Demonstration) ==> {
            &&& r2.summary.verification_types.test == r1.summary.verification_types.test
            &&& r2.summary.verification_types.analysis == r1.summary.verification_types.analysis
            &&& r2.summary.verification_types.inspection == r1.summary.verification_types.inspection
            &&& r2.summary.verification_types.demonstration == r1.summary.verification_types.demonstration + 1
        },
        e.element_type is Verification ==> {
            &&& r2.summary.total_verifications == r1.summary.total_verifications + 1
            &&& (exists|j: int| 0 <= j < e.relations@.len() && #[trigger] e.relations@[j].relation_type.is_satisfaction)
                ==> r2.summary.total_satisfied == r1.summary.total_satisfied + 1
                && r2.summary.total_unsatisfied == r1.summary.total_unsatisfied
            &&& !(exists|j: int| 0 <= j < e.relations@.len() && #[trigger] e.relations@[j].relation_type.is_satisfaction)
                ==> r2.summary.total_satisfied == r1.summary.total_satisfied
                && r2.summary.total_unsatisfied == r1.summary.total_unsatisfied + 1
        },
        !(e.element_type is Verification) ==> {
            &&& r2.summary.total_verifications == r1.summary.total_verifications
            &&& r2.summary.total_satisfied == r1.summary.total_satisfied
            &&& r2.summary.total_unsatisfied == r1.summary.total_unsatisfied
            &&& r2.summary.verification_types.test == r1.summary.verification_types.test
            &&& r2.summary.verification_types.analysis == r1.summary.verification_types.analysis
            &&& r2.summary.verification_types.inspection == r1.summary.verification_types.inspection
            &&& r2.summary.verification_types.demonstration == r1.summary.verification_types.demonstration
        },
{
    let es2 = es.push(e);
    assert(es2.drop_last() =~= es);
    assert(es2.last() == e);
    let vs = verifications_of(es);
    lemma_satisfying_targets_nonempty(e.relations@);
    if e.element_type is Verification {
        let vs2 = vs.push(e);
        assert(vs2.drop_last() =~= vs);
        assert(vs2.last() == e);
    }
}

proof fn lemma_verifications_contain(es: Seq<Element>, j: int)
    requires
        0 <= j < es.len(),
        es[j].element_type is Verification,
    ensures
        verifications_of(es).contains(es[j]),
    decreases es.len(),
{
    let d = es.drop_last();
    let m = verifications_of(d);
    if j < es.len() - 1 {
        assert(d[j] == es[j]);
        lemma_verifications_contain(d, j);
        let w = choose|w: int| 0 <= w < m.len() && m[w] == es[j];
        if es.last().element_type is Verification {
            assert(m.push(es.last())[w] == es[j]);
        }
    } else {
        assert(es.last() == es[j]);
        assert(m.push(es.last())[m.len() as int] == es[j]);
    }
}

proof fn lemma_with_satisfaction_contains(vs: Seq<Element>, x: Element, want: bool)
    requires
        vs.contains(x),
        (satisfying_targets(x.relations@).len() > 0) == want,
    ensures
        with_satisfaction(vs, want).contains(x),
    decreases vs.len(),
{
    let d = vs.drop_last();
    let m = with_satisfaction(d, want);
    let j = choose|j: int| 0 <= j < vs.len() && vs[j] == x;
    if j < vs.len() - 1 {
        assert(d[j] == x);
        lemma_with_satisfaction_contains(d, x, want);
        let w = choose|w: int| 0 <= w < m.len() && m[w] == x;
        if (satisfying_targets(vs.last().relations@).len() > 0) == want {
            assert(m.push(vs.last())[w] == x);
        }
    } else {
        assert(vs.last() == x);
        assert(m.push(vs.last())[m.len() as int] == x);
    }
}

proof fn lemma_in_file_contains(xs: Seq<Element>, x: Element)
    requires
        xs.contains(x),
    ensures
        in_file(xs, x.file_path@).contains(x),
        file_names(xs).contains(x.file_path@),
    decreases xs.len(),
{
    let d = xs.drop_last();
    let m = in_file(d, x.file_path@);
    let j = choose|j: int| 0 <= j < xs.len() && xs[j] == x;
    if j < xs.len() - 1 {
        assert(d[j] == x);
        lemma_in_file_contains(d, x);
        let w = choose|w: int| 0 <= w < m.len() && m[w] == x;
        if xs.last().file_path@ == x.file_path@ {
            assert(m.push(xs.last())[w] == x);
        }
    } else {
        assert(xs.last() == x);
        assert(m.push(xs.last())[m.len() as int] == x);
    }
    lemma_distinct_props(file_keys(xs));
    assert(file_keys(xs)[j] == x.file_path@);
}

/// Whether `v` lists verification `e` under its document, with its
/// identifier, name and section.
pub open spec fn lists_verification(v: VerificationsByFile, e: Element) -> bool {
    exists|i: int, k: int|
        #![trigger v.files@[i].verifications@[k]]
        0 <= i < v.files@.len() && 0 <= k < v.files@[i].verifications@.len() && v.files@[i].file@ == e.file_path@
            && v.files@[i].verifications@[k].identifier@ == e.identifier@ && v.files@[i].verifications@[k].name@
            == e.name@ && v.files@[i].verifications@[k].section@ == e.section@
}

/// Every verification of the model is listed in the coverage report, under
/// its own document, among the satisfied verifications when it holds a
/// satisfaction relation and among the unsatisfied ones otherwise, with
/// its identifier, name and section.
pub proof fn lemma_coverage_lists_each(r: CoverageReport, es: Seq<Element>, j: int)
    requires
        coverage_report_of(r, es),
        0 <= j < es.len(),
        es[j].element_type is Verification,
    ensures
        (exists|q: int| 0 <= q < es[j].relations@.len() && #[trigger] es[j].relations@[q].relation_type.is_satisfaction)
            ==> lists_verification(r.satisfied_verifications, es[j]),
        !(exists|q: int| 0 <= q < es[j].relations@.len() && #[trigger] es[j].relations@[q].relation_type.is_satisfaction)
            ==> lists_verification(r.unsatisfied_verifications, es[j]),
{
    let e = es[j];
    lemma_satisfying_targets_nonempty(e.relations@);
    let want = satisfying_targets(e.relations@).len() > 0;
    let vs = verifications_of(es);
    lemma_verifications_contain(es, j);
    lemma_with_satisfaction_contains(vs, e, want);
    let xs = with_satisfaction(vs, want);
    let v = if want {
        r.satisfied_verifications
    } else {
        r.unsatisfied_verifications
    };
    assert(grouped_by_file(v, xs));
    lemma_in_file_contains(xs, e);
    let names = file_names(xs);
    let i = choose|i: int| 0 <= i < names.len() && names[i] == e.file_path@;
    let members = in_file(xs, names[i]);
    let k = choose|k: int| 0 <= k < members.len() && members[k] == e;
    let fv = v.files@[i];
    assert(fv.file@ == names[i]);
    assert(details_of(fv.verifications@[k], members[k]));
    assert(v.files@.len() == names.len());
    assert(fv.verifications@.len() == members.len());
    assert(v.files@[i].verifications@[k].identifier@ == e.identifier@);
    assert(v.files@[i].verifications@[k].name@ == e.name@);
    assert(v.files@[i].verifications@[k].section@ == e.section@);
    assert(lists_verification(v, e));
}

fn satisfying_targets_of(rs: &Vec<Relation>) -> (r: Vec<String>)
    ensures
        r@.map_values(|t: String| t@) == satisfying_targets(rs@),
{
    let n = rs.len();
    let mut r: Vec<String> = Vec::new();
    let mut i: usize = 0;
    while i < n
        invariant
            i <= n,
            n == rs@.len(),
            r@.map_values(|t: String| t@) == satisfying_targets(rs@.take(i as int)),
        decreases n - i,
    {
        assert(rs@.take(i + 1).drop_last() =~= rs@.take(i as int));
        if rs[i].relation_type.is_satisfaction {
            let t = match &rs[i].target.link {
                LinkType::Identifier(id) => id.clone(),
                LinkType::ExternalUrl(url) => url.clone(),
                LinkType::InternalPath(path) => path.clone(),
            };
            let ghost prev = r@;
            r.push(t);
            assert(r@.map_values(|t: String| t@) =~= prev.map_values(|t: String| t@).push(
                link_text(rs@[i as int].target.link),
            ));
        }
        i = i + 1;
    }
    assert(rs@.take(n as int) =~= rs@);
    r
}

fn verification_details(e: &Element) -> (d: VerificationDetails)
    ensures
        details_of(d, *e),
{
    VerificationDetails {
        identifier: e.identifier.clone(),
        name: e.name.clone(),
        section: e.section.clone(),
        verification_type: e.element_type.as_str().to_owned(),
        satisfied_by: satisfying_targets_of(&e.relations),
    }
}

fn group_by_file(es: &Vec<&Element>) -> (v: VerificationsByFile)
    ensures
        grouped_by_file(v, derefs(es@)),
{
    let ghost all = derefs(es@);
    let reps = first_of_groups(es, true);
    let nf = reps.len();
    let mut files: Vec<FileVerifications> = Vec::new();
    let mut g: usize = 0;
    while g < nf
        invariant
            g <= nf,
            nf == reps@.len(),
            all == derefs(es@),
            nf == file_names(all).len(),
            forall|w: int|
                0 <= w < nf ==> #[trigger] reps@[w] < es@.len() && es@[reps@[w] as int].file_path@
                    == file_names(all)[w],
            files@.len() == g,
            forall|w: int|
                0 <= w < g ==> {
                    let fv = #[trigger] files@[w];
                    let members = in_file(all, file_names(all)[w]);
                    &&& fv.file@ == file_names(all)[w]
                    &&& fv.verifications@.len() == members.len()
                    &&& forall|k: int|
                        0 <= k < members.len() ==> details_of(#[trigger] fv.verifications@[k], members[k])
                },
        decreases nf - g,
    {
        let file = &es[reps[g]].file_path;
        let members = select_file(es, file);
        let ghost ms = derefs(members@);
        let m = members.len();
        let mut details: Vec<VerificationDetails> = Vec::new();
        let mut k: usize = 0;
        while k < m
            invariant
                k <= m,
                m == members@.len(),
                ms == derefs(members@),
                details@.len() == k,
                forall|w: int| 0 <= w < k ==> details_of(#[trigger] details@[w], ms[w]),
            decreases m - k,
        {
            details.push(verification_details(members[k]));
            k = k + 1;
        }
        files.push(FileVerifications { file: file.clone(), verifications: details });
        g = g + 1;
    }
    VerificationsByFile { files }
}

/// Builds the verification coverage report of `registry`: every
/// verification element counted by kind, and listed, by document, among the
/// satisfied ones (those with a satisfaction relation, with the targets of
/// those relations) or the unsatisfied ones.
pub fn generate_coverage_report(registry: &ElementRegistry) -> (r: CoverageReport)
    ensures
        coverage_report_of(r, registry.elements@),
        r.summary.total_satisfied + r.summary.total_unsatisfied == r.summary.total_verifications,
        r.summary.verification_types.test + r.summary.verification_types.analysis
            + r.summary.verification_types.inspection + r.summary.verification_types.demonstration
            == r.summary.total_verifications,
{
    let ghost es = registry.elements@;
    let n = registry.elements.len();
    let mut total_verifications: usize = 0;
    let mut total_satisfied: usize = 0;
    let mut test: usize = 0;
    let mut analysis: usize = 0;
    let mut inspection: usize = 0;
    let mut demonstration: usize = 0;
    let mut sat: Vec<&Element> = Vec::new();
    let mut unsat: Vec<&Element> = Vec::new();
    let mut i: usize = 0;
    while i < n
        invariant
            i <= n,
            n == es.len(),
            es == registry.elements@,
            total_verifications == verifications_of(es.take(i as int)).len(),
            derefs(sat@) == with_satisfaction(verifications_of(es.take(i as int)), true),
            derefs(unsat@) == with_satisfaction(verifications_of(es.take(i as int)), false),
            total_satisfied == sat@.len(),
            total_satisfied + unsat@.len() == total_verifications,
            total_verifications <= i,
            test == count_of(es.take(i as int), CounterKind::TestVerification),
            analysis == count_of(es.take(i as int), CounterKind::AnalysisVerification),
            inspection == count_of(es.take(i as int), CounterKind::InspectionVerification),
            demonstration == count_of(es.take(i as int), CounterKind::DemonstrationVerification),
            test + analysis + inspection + demonstration == total_verifications,
        decreases n - i,
    {
        let ghost pre = es.take(i as int);
        assert(es.take(i + 1).drop_last() =~= pre);
        assert(es.take(i + 1).last() == es[i as int]);
        let element = &registry.elements[i];
        if let ElementType::Verification(verification_type) = &element.element_type {
            total_verifications = total_verifications + 1;
            match verification_type {
                VerificationType::Default => test = test + 1,
                VerificationType::Test => test = test + 1,
                VerificationType::Analysis => analysis = analysis + 1,
                VerificationType::Inspection => inspection = inspection + 1,
                VerificationType::Demonstration => demonstration = demonstration + 1,
            }
            let satisfied_by = satisfying_targets_of(&element.relations);
            let ghost vs = verifications_of(pre);
            assert(verifications_of(es.take(i + 1)) == vs.push(*element));
            assert(vs.push(*element).drop_last() =~= vs);
            assert(satisfied_by@.len() == satisfying_targets(element.relations@).len());
            if satisfied_by.len() == 0 {
                let ghost prev = unsat@;
                unsat.push(element);
                assert(derefs(unsat@) =~= derefs(prev).push(*element));
            } else {
                total_satisfied = total_satisfied + 1;
                let ghost prev = sat@;
                sat.push(element);
                assert(derefs(sat@) =~= derefs(prev).push(*element));
            }
        }
        i = i + 1;
    }
    assert(es.take(n as int) =~= es);
    let satisfied_verifications = group_by_file(&sat);
    let unsatisfied_verifications = group_by_file(&unsat);
    CoverageReport {
        summary: CoverageSummary {
            total_verifications,
            total_satisfied,
            total_unsatisfied: total_verifications - total_satisfied,
            verification_types: VerificationTypeCounts { test, analysis, inspection, demonstration },
        },
        satisfied_verifications,
        unsatisfied_verifications,
    }
}

} // verus!
