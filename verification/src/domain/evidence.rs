use vstd::prelude::*;
use crate::domain::confidence::Confidence;
use crate::domain::entity::Metadata;
use crate::domain::text::owned;

verus! {

/// The mathematical value of a piece of evidence.
pub struct EvidenceView {
    pub backend: Seq<char>,
    pub source: Seq<char>,
    pub description: Seq<char>,
    pub confidence: Confidence,
    pub metadata: Seq<(Seq<char>, Seq<char>)>,
}

/// What a backend observed, where, and how sure it is.
#[derive(Debug, Clone)]
pub struct Evidence {
    pub backend: String,
    pub source: String,
    pub description: String,
    pub confidence: Confidence,
    pub metadata: Metadata,
}

impl View for Evidence {
    type V = EvidenceView;

    open spec fn view(&self) -> EvidenceView {
        EvidenceView {
            backend: self.backend@,
            source: self.source@,
            description: self.description@,
            confidence: self.confidence,
            metadata: self.metadata@,
        }
    }
}

impl Evidence {
    pub fn new(backend: &str, source: &str, description: &str, confidence: Confidence) -> (r: Self)
        ensures
            r@ == (EvidenceView {
                backend: backend@,
                source: source@,
                description: description@,
                confidence: confidence,
                metadata: Seq::empty(),
            }),
    {
        Evidence {
            backend: owned(backend),
            source: owned(source),
            description: owned(description),
            confidence,
            metadata: Metadata::new(),
        }
    }

    /// Evidence whose source is the given string.
    pub fn with_source(backend: &str, source: String, description: &str, confidence: Confidence) -> (r: Self)
        ensures
            r@ == (EvidenceView {
                backend: backend@,
                source: source@,
                description: description@,
                confidence: confidence,
                metadata: Seq::empty(),
            }),
    {
        Evidence {
            backend: owned(backend),
            source,
            description: owned(description),
            confidence,
            metadata: Metadata::new(),
        }
    }

    /// Whether two pieces of evidence are equal in every field.
    pub fn same(&self, other: &Evidence) -> (r: bool)
        ensures
            r == (self@ == other@),
    {
        self.backend == other.backend && self.source == other.source && self.description
            == other.description && self.confidence == other.confidence && self.metadata.same(
            &other.metadata,
        )
    }

    /// A copy of this evidence.
    pub fn duplicate(&self) -> (r: Self)
        ensures
            r@ == self@,
    {
        Evidence {
            backend: self.backend.clone(),
            source: self.source.clone(),
            description: self.description.clone(),
            confidence: self.confidence,
            metadata: self.metadata.clone(),
        }
    }
}

impl PartialEq for Evidence {
    fn eq(&self, other: &Self) -> (r: bool) {
        self.same(other)
    }
}

impl Eq for Evidence {}

impl vstd::std_specs::cmp::PartialEqSpecImpl for Evidence {
    open spec fn obeys_eq_spec() -> bool {
        true
    }

    open spec fn eq_spec(&self, other: &Self) -> bool {
        self@ == other@
    }
}

} // verus!
