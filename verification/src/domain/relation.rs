use vstd::prelude::*;
use crate::domain::confidence::Confidence;
use crate::domain::entity::EntityId;
use crate::domain::evidence::{Evidence, EvidenceView};

verus! {

#[derive(Debug, Clone, Copy, PartialEq, Eq, Structural, Hash)]
pub enum RelationKind {
    Owns,
    Requires,
    References,
    RefersTo,
    StartedBy,
    EnabledBy,
    ConfiguredBy,
    DeclaredAt,
    InstalledBecauseOf,
    Exposes,
    ResolvesTo,
    GeneratedFrom,
    KeptAliveBy,
    LoadedBy,
    BelongsTo,
    ReachableFrom,
    Uses,
}

/// The machine-readable name of a relation kind.
pub open spec fn relation_kind_name(k: RelationKind) -> Seq<char> {
    match k {
        RelationKind::Owns => "owns"@,
        RelationKind::Requires => "requires"@,
        RelationKind::References => "references"@,
        RelationKind::RefersTo => "refers_to"@,
        RelationKind::StartedBy => "started_by"@,
        RelationKind::EnabledBy => "enabled_by"@,
        RelationKind::ConfiguredBy => "configured_by"@,
        RelationKind::DeclaredAt => "declared_at"@,
        RelationKind::InstalledBecauseOf => "installed_because_of"@,
        RelationKind::Exposes => "exposes"@,
        RelationKind::ResolvesTo => "resolves_to"@,
        RelationKind::GeneratedFrom => "generated_from"@,
        RelationKind::KeptAliveBy => "kept_alive_by"@,
        RelationKind::LoadedBy => "loaded_by"@,
        RelationKind::BelongsTo => "belongs_to"@,
        RelationKind::ReachableFrom => "reachable_from"@,
        RelationKind::Uses => "uses"@,
    }
}

/// The human label of a relation kind.
pub open spec fn relation_kind_label(k: RelationKind) -> Seq<char> {
    match k {
        RelationKind::ResolvesTo => "resolves to"@,
        RelationKind::BelongsTo => "belongs to"@,
        RelationKind::ReachableFrom => "kept because of"@,
        RelationKind::StartedBy => "started by"@,
        RelationKind::ConfiguredBy => "configured by"@,
        RelationKind::DeclaredAt => "declared in"@,
        RelationKind::Owns => "owns"@,
        RelationKind::Requires => "requires"@,
        RelationKind::References => "references"@,
        RelationKind::GeneratedFrom => "generated from"@,
        RelationKind::KeptAliveBy => "kept alive by"@,
        RelationKind::Uses => "uses"@,
        RelationKind::Exposes => "exposes"@,
        RelationKind::RefersTo => "refers to"@,
        RelationKind::EnabledBy => "enabled by"@,
        RelationKind::InstalledBecauseOf => "installed because of"@,
        RelationKind::LoadedBy => "loaded by"@,
    }
}

impl RelationKind {
    pub fn as_str(&self) -> (r: &'static str)
        ensures
            r@ == relation_kind_name(*self),
    {
        match self {
            Self::Owns => "owns",
            Self::Requires => "requires",
            Self::References => "references",
            Self::RefersTo => "refers_to",
            Self::StartedBy => "started_by",
            Self::EnabledBy => "enabled_by",
            Self::ConfiguredBy => "configured_by",
            Self::DeclaredAt => "declared_at",
            Self::InstalledBecauseOf => "installed_because_of",
            Self::Exposes => "exposes",
            Self::ResolvesTo => "resolves_to",
            Self::GeneratedFrom => "generated_from",
            Self::KeptAliveBy => "kept_alive_by",
            Self::LoadedBy => "loaded_by",
            Self::BelongsTo => "belongs_to",
            Self::ReachableFrom => "reachable_from",
            Self::Uses => "uses",
        }
    }

    pub fn label(&self) -> (r: &'static str)
        ensures
            r@ == relation_kind_label(*self),
    {
        match self {
            Self::ResolvesTo => "resolves to",
            Self::BelongsTo => "belongs to",
            Self::ReachableFrom => "kept because of",
            Self::StartedBy => "started by",
            Self::ConfiguredBy => "configured by",
            Self::DeclaredAt => "declared in",
            Self::Owns => "owns",
            Self::Requires => "requires",
            Self::References => "references",
            Self::GeneratedFrom => "generated from",
            Self::KeptAliveBy => "kept alive by",
            Self::Uses => "uses",
            Self::Exposes => "exposes",
            Self::RefersTo => "refers to",
            Self::EnabledBy => "enabled by",
            Self::InstalledBecauseOf => "installed because of",
            Self::LoadedBy => "loaded by",
        }
    }
}

/// The mathematical value of a relation.
pub struct RelationView {
    pub from: Seq<char>,
    pub to: Seq<char>,
    pub kind: RelationKind,
    pub evidence: Seq<EvidenceView>,
    pub confidence: Confidence,
}

/// The views of a list of evidence.
pub open spec fn evidence_views(v: Seq<Evidence>) -> Seq<EvidenceView> {
    v.map_values(|e: Evidence| e@)
}

#[derive(Debug, Clone)]
pub struct Relation {
    pub from: EntityId,
    pub to: EntityId,
    pub kind: RelationKind,
    pub evidence: Vec<Evidence>,
    pub confidence: Confidence,
}

impl View for Relation {
    type V = RelationView;

    open spec fn view(&self) -> RelationView {
        RelationView {
            from: self.from@,
            to: self.to@,
            kind: self.kind,
            evidence: evidence_views(self.evidence@),
            confidence: self.confidence,
        }
    }
}

impl Relation {
    pub fn new(
        from: EntityId,
        to: EntityId,
        kind: RelationKind,
        confidence: Confidence,
        evidence: Vec<Evidence>,
    ) -> (r: Self)
        ensures
            r@ == (RelationView {
                from: from@,
                to: to@,
                kind: kind,
                evidence: evidence_views(evidence@),
                confidence: confidence,
            }),
    {
        Relation { from, to, kind, evidence, confidence }
    }

    /// A copy of this relation.
    pub fn duplicate(&self) -> (r: Self)
        ensures
            r@ == self@,
    {
        Relation {
            from: self.from.duplicate(),
            to: self.to.duplicate(),
            kind: self.kind,
            evidence: duplicate_evidence(&self.evidence),
            confidence: self.confidence,
        }
    }
}

/// A copy of a list of evidence.
pub fn duplicate_evidence(v: &Vec<Evidence>) -> (r: Vec<Evidence>)
    ensures
        evidence_views(r@) == evidence_views(v@),
{
    let mut r: Vec<Evidence> = Vec::new();
    let mut i: usize = 0;
    while i < v.len()
        invariant
            i <= v.len(),
            evidence_views(r@) == evidence_views(v@).take(i as int),
        decreases v.len() - i,
    {
        let e = v[i].duplicate();
        let ghost before = evidence_views(r@);
        r.push(e);
        assert(evidence_views(r@) =~= before.push(e@));
        assert(evidence_views(v@).take(i + 1) =~= evidence_views(v@).take(i as int).push(v@[i as int]@));
        i += 1;
    }
    assert(evidence_views(v@).take(v.len() as int) =~= evidence_views(v@));
    r
}

} // verus!
