//! Selecting the elements a report covers.
use vstd::prelude::*;
use crate::error::ReqvireError;
use crate::model::{denotes, Element, ElementType, Relation};
use crate::outside::{
    check_glob, check_regex, glob_failure, glob_is_match, glob_match, lowercase, regex_error,
    regex_is_match, regex_match, to_lowercase,
};

verus! {

/// The number of relations in `rs` that count as verifications.
pub open spec fn verification_count(rs: Seq<Relation>) -> nat
    decreases rs.len(),
{
    if rs.len() == 0 {
        0
    } else {
        verification_count(rs.drop_last()) + if rs.last().relation_type.is_verification {
            1nat
        } else {
            0nat
        }
    }
}

/// The number of relations in `rs` that count as satisfactions.
pub open spec fn satisfaction_count(rs: Seq<Relation>) -> nat
    decreases rs.len(),
{
    if rs.len() == 0 {
        0
    } else {
        satisfaction_count(rs.drop_last()) + if rs.last().relation_type.is_satisfaction {
            1nat
        } else {
            0nat
        }
    }
}

/// The view of an optional string argument.
pub open spec fn opt_view(o: Option<&str>) -> Option<Seq<char>> {
    match o {
        Some(s) => Some(s@),
        None => None,
    }
}

/// The report filters: glob patterns on the document and the section,
/// regular expressions on the name and the content, an element type name,
/// and whether to keep only elements with no verification or no
/// satisfaction relation.
pub struct Filters {
    file_glob: Option<String>,
    name_re: Option<String>,
    section_glob: Option<String>,
    type_pat: Option<String>,
    content_re: Option<String>,
    not_verified: bool,
    not_satisfied: bool,
}

fn count_verifications(rs: &Vec<Relation>) -> (c: usize)
    ensures
        c == verification_count(rs@),
{
    let n = rs.len();
    let mut c: usize = 0;
    let mut i: usize = 0;
    while i < n
        invariant
            i <= n,
            n == rs@.len(),
            c == verification_count(rs@.take(i as int)),
            c <= i,
        decreases n - i,
    {
        assert(rs@.take(i + 1).drop_last() =~= rs@.take(i as int));
        if rs[i].relation_type.is_verification {
            c = c + 1;
        }
        i = i + 1;
    }
    assert(rs@.take(n as int) =~= rs@);
    c
}

fn count_satisfactions(rs: &Vec<Relation>) -> (c: usize)
    ensures
        c == satisfaction_count(rs@),
{
    let n = rs.len();
    let mut c: usize = 0;
    let mut i: usize = 0;
    while i < n
        invariant
            i <= n,
            n == rs@.len(),
            c == satisfaction_count(rs@.take(i as int)),
            c <= i,
        decreases n - i,
    {
        assert(rs@.take(i + 1).drop_last() =~= rs@.take(i as int));
        if rs[i].relation_type.is_satisfaction {
            c = c + 1;
        }
        i = i + 1;
    }
    assert(rs@.take(n as int) =~= rs@);
    c
}

/// A relation list counts a verification exactly when one of its relations
/// is a verification, and a satisfaction exactly when one is a
/// satisfaction.
pub proof fn lemma_counts_positive(rs: Seq<Relation>)
    ensures
        verification_count(rs) > 0 <==> exists|j: int| 0 <= j < rs.len() && #[trigger] rs[j].relation_type.is_verification,
        satisfaction_count(rs) > 0 <==> exists|j: int| 0 <= j < rs.len() && #[trigger] rs[j].relation_type.is_satisfaction,
    decreases rs.len(),
{
    if rs.len() > 0 {
        let d = rs.drop_last();
        lemma_counts_positive(d);
        assert(rs.last() == rs[rs.len() - 1]);
        if rs.last().relation_type.is_verification {
            assert(rs[rs.len() - 1].relation_type.is_verification);
        }
        if rs.last().relation_type.is_satisfaction {
            assert(rs[rs.len() - 1].relation_type.is_satisfaction);
        }
        if exists|j: int| 0 <= j < d.len() && #[trigger] d[j].relation_type.is_verification {
            let j = choose|j: int| 0 <= j < d.len() && #[trigger] d[j].relation_type.is_verification;
            assert(rs[j] == d[j]);
            assert(rs[j].relation_type.is_verification);
        }
        if exists|j: int| 0 <= j < d.len() && #[trigger] d[j].relation_type.is_satisfaction {
            let j = choose|j: int| 0 <= j < d.len() && #[trigger] d[j].relation_type.is_satisfaction;
            assert(rs[j] == d[j]);
            assert(rs[j].relation_type.is_satisfaction);
        }
        if exists|j: int| 0 <= j < rs.len() && #[trigger] rs[j].relation_type.is_verification {
            let j = choose|j: int| 0 <= j < rs.len() && #[trigger] rs[j].relation_type.is_verification;
            if j < d.len() {
                assert(d[j] == rs[j]);
                assert(d[j].relation_type.is_verification);
            }
        }
        if exists|j: int| 0 <= j < rs.len() && #[trigger] rs[j].relation_type.is_satisfaction {
            let j = choose|j: int| 0 <= j < rs.len() && #[trigger] rs[j].relation_type.is_satisfaction;
            if j < d.len() {
                assert(d[j] == rs[j]);
                assert(d[j].relation_type.is_satisfaction);
            }
        }
    }
}

fn view_opt(o: &Option<String>) -> (r: Option<&str>)
    ensures
        opt_view(r) == match o {
            Some(s) => Some(s@),
            None => None::<Seq<char>>,
        },
{
    match o {
        Some(s) => Some(s.as_str()),
        None => None,
    }
}

impl Filters {
    /// The patterns compile (each glob parses and builds).
    #[verifier::type_invariant]
    closed spec fn wf(self) -> bool {
        &&& (self.file_glob matches Some(p) ==> glob_failure(p@) is None)
        &&& (self.name_re matches Some(p) ==> regex_error(p@) is None)
        &&& (self.section_glob matches Some(p) ==> glob_failure(p@) is None)
        &&& (self.content_re matches Some(p) ==> regex_error(p@) is None)
    }

    /// The glob on the document path.
    pub closed spec fn file_pattern(self) -> Option<Seq<char>> {
        match self.file_glob {
            Some(p) => Some(p@),
            None => None,
        }
    }

    /// The expression on the name.
    pub closed spec fn name_pattern(self) -> Option<Seq<char>> {
        match self.name_re {
            Some(p) => Some(p@),
            None => None,
        }
    }

    /// The glob on the section.
    pub closed spec fn section_pattern(self) -> Option<Seq<char>> {
        match self.section_glob {
            Some(p) => Some(p@),
            None => None,
        }
    }

    /// The (lowercased) element type name.
    pub closed spec fn type_pattern(self) -> Option<Seq<char>> {
        match self.type_pat {
            Some(p) => Some(p@),
            None => None,
        }
    }

    /// The expression on the content.
    pub closed spec fn content_pattern(self) -> Option<Seq<char>> {
        match self.content_re {
            Some(p) => Some(p@),
            None => None,
        }
    }

    /// Whether only elements without verification relations pass.
    pub closed spec fn only_not_verified(self) -> bool {
        self.not_verified
    }

    /// Whether only elements without satisfaction relations pass.
    pub closed spec fn only_not_satisfied(self) -> bool {
        self.not_satisfied
    }

    /// Whether element `e` passes all of these filters.
    pub open spec fn accepts(self, e: Element) -> bool {
        &&& (self.file_pattern() matches Some(p) ==> glob_match(p, e.file_path@))
        &&& (self.name_pattern() matches Some(p) ==> regex_match(p, e.name@))
        &&& (self.section_pattern() matches Some(p) ==> glob_match(p, e.section@))
        &&& (self.type_pattern() matches Some(t) ==> denotes(t, e.element_type))
        &&& (self.content_pattern() matches Some(p) ==> regex_match(p, e.content@))
        &&& (self.only_not_verified() ==> verification_count(e.relations@) == 0)
        &&& (self.only_not_satisfied() ==> satisfaction_count(e.relations@) == 0)
    }

    /// Filters with no pattern and neither flag let every element through.
    pub proof fn lemma_no_filters_accept_all(self, e: Element)
        requires
            self.file_pattern() is None,
            self.name_pattern() is None,
            self.section_pattern() is None,
            self.type_pattern() is None,
            self.content_pattern() is None,
            !self.only_not_verified(),
            !self.only_not_satisfied(),
        ensures
            self.accepts(e),
    {
    }

    /// The not-verified filter rejects every element holding a verification
    /// relation, and the not-satisfied filter every element holding a
    /// satisfaction relation.
    pub proof fn lemma_flags_reject(self, e: Element, j: int)
        requires
            0 <= j < e.relations@.len(),
        ensures
            self.only_not_verified() && e.relations@[j].relation_type.is_verification ==> !self.accepts(e),
            self.only_not_satisfied() && e.relations@[j].relation_type.is_satisfaction ==> !self.accepts(e),
    {
        lemma_counts_positive(e.relations@);
    }

    /// Each flag looks only at its own kind of relation: with no pattern, an
    /// element with no verification relation passes the not-verified filter
    /// whatever satisfaction relations it has, and one with no satisfaction
    /// relation passes the not-satisfied filter whatever verification
    /// relations it has.
    pub proof fn lemma_flags_accept(self, e: Element)
        requires
            self.file_pattern() is None,
            self.name_pattern() is None,
            self.section_pattern() is None,
            self.type_pattern() is None,
            self.content_pattern() is None,
        ensures
            (forall|j: int| 0 <= j < e.relations@.len() ==> !(#[trigger] e.relations@[j]).relation_type.is_verification)
                && !self.only_not_satisfied() ==> self.accepts(e),
            (forall|j: int| 0 <= j < e.relations@.len() ==> !(#[trigger] e.relations@[j]).relation_type.is_satisfaction)
                && !self.only_not_verified() ==> self.accepts(e),
    {
        lemma_counts_positive(e.relations@);
    }

    /// A pattern that the element's field does not match rejects the
    /// element: the document and section globs, the name and content
    /// expressions, and the element type name.
    pub proof fn lemma_patterns_reject(self, e: Element)
        ensures
            self.file_pattern() matches Some(p) && !glob_match(p, e.file_path@) ==> !self.accepts(e),
            self.name_pattern() matches Some(p) && !regex_match(p, e.name@) ==> !self.accepts(e),
            self.section_pattern() matches Some(p) && !glob_match(p, e.section@) ==> !self.accepts(e),
            self.content_pattern() matches Some(p) && !regex_match(p, e.content@) ==> !self.accepts(e),
            self.type_pattern() matches Some(t) && !denotes(t, e.element_type) ==> !self.accepts(e),
    {
    }

    /// Builds the filters; fails with the first pattern that does not
    /// compile (a glob that does not parse, or whose matcher cannot be built,
    /// such as one too large to compile), checked in the order document glob, name expression, section
    /// glob, content expression. The type name is kept lowercased.
    pub fn new(
        file: Option<&str>,
        name_regex: Option<&str>,
        section: Option<&str>,
        typ: Option<&str>,
        content: Option<&str>,
        is_not_verified: bool,
        is_not_satisfied: bool,
    ) -> (r: Result<Filters, ReqvireError>)
        ensures
            ({
                let fe = match file {
                    Some(p) => glob_failure(p@),
                    None => None,
                };
                let ne = match name_regex {
                    Some(p) => regex_error(p@),
                    None => None,
                };
                let se = match section {
                    Some(p) => glob_failure(p@),
                    None => None,
                };
                let ce = match content {
                    Some(p) => regex_error(p@),
                    None => None,
                };
                &&& (r is Ok <==> fe is None && ne is None && se is None && ce is None)
                &&& (fe is Some ==> (r matches Err(ReqvireError::InvalidGlob(x)) && Some(x@) == fe))
                &&& (fe is None && ne is Some ==> (r matches Err(ReqvireError::InvalidRegex(x))
                    && Some(x@) == ne))
                &&& (fe is None && ne is None && se is Some ==> (r matches Err(
                    ReqvireError::InvalidGlob(x),
                ) && Some(x@) == se))
                &&& (fe is None && ne is None && se is None && ce is Some ==> (r matches Err(
                    ReqvireError::InvalidRegex(x),
                ) && Some(x@) == ce))
            }),
            r matches Ok(f) ==> {
                &&& f.file_pattern() == opt_view(file)
                &&& f.name_pattern() == opt_view(name_regex)
                &&& f.section_pattern() == opt_view(section)
                &&& f.type_pattern() == match typ {
                    Some(t) => Some(lowercase(t@)),
                    None => None,
                }
                &&& f.content_pattern() == opt_view(content)
                &&& f.only_not_verified() == is_not_verified
                &&& f.only_not_satisfied() == is_not_satisfied
            },
    {
        let file_glob = match file {
            Some(p) => {
                match check_glob(p) {
                    Ok(()) => Some(p.to_owned()),
                    Err(m) => {
                        return Err(ReqvireError::InvalidGlob(m));
                    },
                }
            },
            None => None,
        };
        let name_re = match name_regex {
            Some(p) => {
                match check_regex(p) {
                    Ok(()) => Some(p.to_owned()),
                    Err(m) => {
                        return Err(ReqvireError::InvalidRegex(m));
                    },
                }
            },
            None => None,
        };
        let section_glob = match section {
            Some(p) => {
                match check_glob(p) {
                    Ok(()) => Some(p.to_owned()),
                    Err(m) => {
                        return Err(ReqvireError::InvalidGlob(m));
                    },
                }
            },
            None => None,
        };
        let type_pat = match typ {
            Some(t) => Some(to_lowercase(t)),
            None => None,
        };
        let content_re = match content {
            Some(p) => {
                match check_regex(p) {
                    Ok(()) => Some(p.to_owned()),
                    Err(m) => {
                        return Err(ReqvireError::InvalidRegex(m));
                    },
                }
            },
            None => None,
        };
        Ok(
            Filters {
                file_glob,
                name_re,
                section_glob,
                type_pat,
                content_re,
                not_verified: is_not_verified,
                not_satisfied: is_not_satisfied,
            },
        )
    }

    /// Returns true if this element passes *all* of the filters.
    pub fn matches(&self, e: &Element) -> (r: bool)
        ensures
            r == self.accepts(*e),
    {
        proof {
            use_type_invariant(self);
        }
        if let Some(g) = view_opt(&self.file_glob) {
            if !glob_is_match(g, e.file_path.as_str()) {
                return false;
            }
        }
        if let Some(re) = view_opt(&self.name_re) {
            if !regex_is_match(re, e.name.as_str()) {
                return false;
            }
        }
        if let Some(g) = view_opt(&self.section_glob) {
            if !glob_is_match(g, e.section.as_str()) {
                return false;
            }
        }
        if let Some(tp) = view_opt(&self.type_pat) {
            let filter_type = ElementType::from_metadata(tp);
            if !e.element_type.same(&filter_type) {
                return false;
            }
        }
        if let Some(re) = view_opt(&self.content_re) {
            if !regex_is_match(re, e.content.as_str()) {
                return false;
            }
        }
        let verified_count = count_verifications(&e.relations);
        let satisfied_count = count_satisfactions(&e.relations);
        if self.not_verified && verified_count > 0 {
            return false;
        }
        if self.not_satisfied && satisfied_count > 0 {
            return false;
        }
        true
    }
}

} // verus!
