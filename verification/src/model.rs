//! The requirements model that diagrams and reports are computed from.
//!
//! Elements are read from Markdown documents; each element carries the data
//! that the diagram and report logic reads, including, for every node a
//! diagram can show, its node identifier and its resolved links.
use vstd::prelude::*;
use crate::text::{chars_of, same_chars};

verus! {

/// Kind of a requirement.
#[derive(Clone, Copy, Debug, PartialEq, Eq, Structural)]
pub enum RequirementType {
    System,
    User,
}

/// Kind of a verification.
#[derive(Clone, Copy, Debug, PartialEq, Eq, Structural)]
pub enum VerificationType {
    Default,
    Test,
    Analysis,
    Inspection,
    Demonstration,
}

/// Type of a model element.
#[derive(Debug)]
pub enum ElementType {
    Requirement(RequirementType),
    Verification(VerificationType),
    /// Any other element type, by its metadata name.
    Other(String),
}

/// Whether two element types are the same.
pub open spec fn same_type(a: ElementType, b: ElementType) -> bool {
    match (a, b) {
        (ElementType::Requirement(x), ElementType::Requirement(y)) => x == y,
        (ElementType::Verification(x), ElementType::Verification(y)) => x == y,
        (ElementType::Other(x), ElementType::Other(y)) => x@ == y@,
        _ => false,
    }
}

/// The metadata name of an element type.
pub open spec fn metadata_name(t: ElementType) -> Seq<char> {
    match t {
        ElementType::Requirement(RequirementType::System) => "requirement"@,
        ElementType::Requirement(RequirementType::User) => "user-requirement"@,
        ElementType::Verification(VerificationType::Default) => "verification"@,
        ElementType::Verification(VerificationType::Test) => "test-verification"@,
        ElementType::Verification(VerificationType::Analysis) => "analysis-verification"@,
        ElementType::Verification(VerificationType::Inspection) => "inspection-verification"@,
        ElementType::Verification(VerificationType::Demonstration) => "demonstration-verification"@,
        ElementType::Other(name) => name@,
    }
}

/// The element type that a built-in metadata name denotes; `None` for any
/// other name, which denotes `ElementType::Other` of that name.
pub open spec fn known_type(name: Seq<char>) -> Option<ElementType> {
    if name == "requirement"@ || name == "system-requirement"@ {
        Some(ElementType::Requirement(RequirementType::System))
    } else if name == "user-requirement"@ {
        Some(ElementType::Requirement(RequirementType::User))
    } else if name == "verification"@ {
        Some(ElementType::Verification(VerificationType::Default))
    } else if name == "test-verification"@ {
        Some(ElementType::Verification(VerificationType::Test))
    } else if name == "analysis-verification"@ {
        Some(ElementType::Verification(VerificationType::Analysis))
    } else if name == "inspection-verification"@ {
        Some(ElementType::Verification(VerificationType::Inspection))
    } else if name == "demonstration-verification"@ {
        Some(ElementType::Verification(VerificationType::Demonstration))
    } else {
        None
    }
}

/// Whether the metadata name `name` denotes the element type `t`.
pub open spec fn denotes(name: Seq<char>, t: ElementType) -> bool {
    match known_type(name) {
        Some(k) => same_type(k, t),
        None => t matches ElementType::Other(n) && n@ == name,
    }
}

fn name_is(s: &Vec<char>, lit: &str) -> (r: bool)
    ensures
        r == (s@ == lit@),
{
    let l = chars_of(lit);
    same_chars(s, &l)
}

impl ElementType {
    /// Whether `self` and `other` are the same element type.
    pub fn same(&self, other: &ElementType) -> (r: bool)
        ensures
            r == same_type(*self, *other),
    {
        match (self, other) {
            (ElementType::Requirement(x), ElementType::Requirement(y)) => *x == *y,
            (ElementType::Verification(x), ElementType::Verification(y)) => *x == *y,
            (ElementType::Other(x), ElementType::Other(y)) => *x == *y,
            _ => false,
        }
    }

    /// The metadata name of this type.
    pub fn as_str(&self) -> (r: &str)
        ensures
            r@ == metadata_name(*self),
    {
        match self {
            ElementType::Requirement(RequirementType::System) => "requirement",
            ElementType::Requirement(RequirementType::User) => "user-requirement",
            ElementType::Verification(VerificationType::Default) => "verification",
            ElementType::Verification(VerificationType::Test) => "test-verification",
            ElementType::Verification(VerificationType::Analysis) => "analysis-verification",
            ElementType::Verification(VerificationType::Inspection) => "inspection-verification",
            ElementType::Verification(VerificationType::Demonstration) => "demonstration-verification",
            ElementType::Other(name) => name.as_str(),
        }
    }

    /// The element type that the metadata name `value` denotes.
    pub fn from_metadata(value: &str) -> (t: ElementType)
        ensures
            denotes(value@, t),
    {
        let v = chars_of(value);
        if name_is(&v, "requirement") || name_is(&v, "system-requirement") {
            ElementType::Requirement(RequirementType::System)
        } else if name_is(&v, "user-requirement") {
            ElementType::Requirement(RequirementType::User)
        } else if name_is(&v, "verification") {
            ElementType::Verification(VerificationType::Default)
        } else if name_is(&v, "test-verification") {
            ElementType::Verification(VerificationType::Test)
        } else if name_is(&v, "analysis-verification") {
            ElementType::Verification(VerificationType::Analysis)
        } else if name_is(&v, "inspection-verification") {
            ElementType::Verification(VerificationType::Inspection)
        } else if name_is(&v, "demonstration-verification") {
            ElementType::Verification(VerificationType::Demonstration)
        } else {
            ElementType::Other(value.to_owned())
        }
    }
}


/// How a diagram shows and links a node: its diagram node identifier (a
/// hash of the identifier or path), the link to it relative to the directory
/// of the document the diagram is written into (`None` when that link could
/// not be formed), and its path relative to the repository root (`None` when
/// it could not be formed).
pub struct NodeRef {
    pub node_id: String,
    pub relative_link: Option<String>,
    pub repo_path: Option<String>,
}

/// What a relation points at.
pub enum LinkType {
    /// Another model element, by identifier.
    Identifier(String),
    /// A web address.
    ExternalUrl(String),
    /// A file in the repository, by path.
    InternalPath(String),
}

/// The target of a relation.
pub struct RelationTarget {
    /// The link text written in the document.
    pub text: String,
    pub link: LinkType,
    pub node: NodeRef,
}

/// Which way a relation's arrow points in diagrams.
#[derive(Clone, Copy, Debug, PartialEq, Eq, Structural)]
pub enum RelationDirection {
    /// From the target to the element that holds the relation.
    Forward,
    /// From the element that holds the relation to the target.
    Backward,
}

/// How a known relation type is drawn.
pub struct RelationInfo {
    pub direction: RelationDirection,
    pub arrow: String,
    pub label: String,
}

/// A relation type: its name, how it is drawn (`None` for a type that has no
/// drawing rule), and whether it counts as a verification or a satisfaction.
pub struct RelationType {
    pub name: String,
    pub info: Option<RelationInfo>,
    pub is_verification: bool,
    pub is_satisfaction: bool,
}

/// A relation held by an element.
pub struct Relation {
    pub relation_type: RelationType,
    pub target: RelationTarget,
    /// Whether this is the inverse of a relation stated elsewhere.
    pub is_opposite: bool,
}

/// A model element.
pub struct Element {
    pub identifier: String,
    pub name: String,
    pub section: String,
    pub file_path: String,
    pub element_type: ElementType,
    pub content: String,
    pub relations: Vec<Relation>,
    pub node: NodeRef,
}

/// All elements of a model, in the order they were read.
pub struct ElementRegistry {
    pub elements: Vec<Element>,
}

/// The first element of `es` whose identifier is `id`.
pub open spec fn lookup(es: Seq<Element>, id: Seq<char>) -> Option<Element>
    decreases es.len(),
{
    if es.len() == 0 {
        None
    } else if es[0].identifier@ == id {
        Some(es[0])
    } else {
        lookup(es.drop_first(), id)
    }
}

impl ElementRegistry {
    /// The first element whose identifier is `id`, if any.
    pub fn get_element(&self, id: &str) -> (r: Option<&Element>)
        ensures
            r is Some <==> lookup(self.elements@, id@) is Some,
            r matches Some(x) ==> lookup(self.elements@, id@) == Some(*x),
    {
        let ids = id.to_owned();
        let n = self.elements.len();
        let mut i: usize = 0;
        assert(self.elements@.skip(0) =~= self.elements@);
        while i < n
            invariant
                i <= n,
                n == self.elements@.len(),
                ids@ == id@,
                lookup(self.elements@, id@) == lookup(self.elements@.skip(i as int), id@),
            decreases n - i,
        {
            assert(self.elements@.skip(i as int).drop_first() =~= self.elements@.skip(i + 1));
            if self.elements[i].identifier == ids {
                return Some(&self.elements[i]);
            }
            i = i + 1;
        }
        None
    }
}

} // verus!
