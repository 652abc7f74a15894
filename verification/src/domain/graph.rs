use vstd::prelude::*;
use vstd::std_specs::iter::IteratorSpec;
use crate::domain::confidence::{stronger, Confidence};
use crate::domain::entity::{meta_extend, Entity, EntityId, EntityKind, EntityView};
use crate::domain::evidence::{Evidence, EvidenceView};
use crate::domain::keyed::{keyed_insert, lemma_keyed_insert_prefix, lemma_keyed_insert_sorted, sorted_by};
use crate::domain::relation::{evidence_views, Relation, RelationKind, RelationView};
use crate::domain::scan::{starts_with, starts_with_text};
use crate::domain::text::{compare_text, lemma_text_lt_irreflexive, text_lt};

verus! {

/// The mathematical value of an evidence graph: its entities in identifier
/// order and its relations in the order they were first added.
pub struct GraphView {
    pub entities: Seq<EntityView>,
    pub relations: Seq<RelationView>,
}

/// The key by which entities are ordered.
pub open spec fn entity_key(e: EntityView) -> Seq<char> {
    e.id
}

/// Whether `name` is a placeholder name such as `PID 42`.
pub open spec fn is_placeholder_name(name: Seq<char>) -> bool {
    starts_with(name, "PID "@)
}

/// What an existing entity becomes when an entity with its identifier is
/// added: a placeholder name gives way to a real one, and the new metadata is
/// merged in, the new values winning.
pub open spec fn merge_entity(existing: EntityView, added: EntityView) -> EntityView {
    EntityView {
        id: existing.id,
        kind: existing.kind,
        name: if is_placeholder_name(existing.name) && !is_placeholder_name(added.name) {
            added.name
        } else {
            existing.name
        },
        metadata: meta_extend(existing.metadata, added.metadata),
    }
}

/// The entities after adding `e`.
pub open spec fn entities_add(s: Seq<EntityView>, e: EntityView) -> Seq<EntityView> {
    keyed_insert(s, e, |x: EntityView| entity_key(x), |a: EntityView, b: EntityView| merge_entity(a, b))
}

/// Whether two relations connect the same entities in the same way.
pub open spec fn same_edge(a: RelationView, b: RelationView) -> bool {
    a.from == b.from && a.to == b.to && a.kind == b.kind
}

/// `old` followed by each piece of `added` that is not yet in it.
pub open spec fn evidence_union(old: Seq<EvidenceView>, added: Seq<EvidenceView>) -> Seq<EvidenceView>
    decreases added.len(),
{
    if added.len() == 0 {
        old
    } else {
        evidence_union(
            if old.contains(added[0]) { old } else { old.push(added[0]) },
            added.drop_first(),
        )
    }
}

/// What an existing relation becomes when the same edge is added again.
pub open spec fn merge_relation(existing: RelationView, added: RelationView) -> RelationView {
    RelationView {
        from: existing.from,
        to: existing.to,
        kind: existing.kind,
        evidence: evidence_union(existing.evidence, added.evidence),
        confidence: stronger(existing.confidence, added.confidence),
    }
}

/// The first position at or after `i` of a relation with the edge of `r`.
pub open spec fn find_edge_from(s: Seq<RelationView>, r: RelationView, i: int) -> Option<int>
    decreases s.len() - i,
{
    if i < 0 || i >= s.len() {
        None
    } else if same_edge(s[i], r) {
        Some(i)
    } else {
        find_edge_from(s, r, i + 1)
    }
}

/// The relations after adding `r`.
pub open spec fn relations_add(s: Seq<RelationView>, r: RelationView) -> Seq<RelationView> {
    match find_edge_from(s, r, 0) {
        Some(i) => s.update(i, merge_relation(s[i], r)),
        None => s.push(r),
    }
}

/// The entity with identifier `id`.
pub open spec fn find_entity(s: Seq<EntityView>, id: Seq<char>) -> Option<EntityView>
    decreases s.len(),
{
    if s.len() == 0 {
        None
    } else if s[0].id == id {
        Some(s[0])
    } else {
        find_entity(s.drop_first(), id)
    }
}

/// The graph after adding the entity `e`.
pub open spec fn with_entity(g: GraphView, e: EntityView) -> GraphView {
    GraphView { entities: entities_add(g.entities, e), relations: g.relations }
}

/// The graph after adding the relation `r`.
pub open spec fn with_relation(g: GraphView, r: RelationView) -> GraphView {
    GraphView { entities: g.entities, relations: relations_add(g.relations, r) }
}

/// A new entity with no metadata.
pub open spec fn plain_entity(id: Seq<char>, kind: EntityKind, name: Seq<char>) -> EntityView {
    EntityView { id, kind, name, metadata: Seq::empty() }
}

/// Evidence with no metadata.
pub open spec fn plain_evidence(backend: Seq<char>, source: Seq<char>, description: Seq<char>, confidence: Confidence) -> EvidenceView {
    EvidenceView { backend, source, description, confidence, metadata: Seq::empty() }
}

/// A relation backed by one piece of evidence, both with the same
/// confidence.
pub open spec fn single_relation(
    from: Seq<char>,
    to: Seq<char>,
    kind: RelationKind,
    confidence: Confidence,
    evidence: EvidenceView,
) -> RelationView {
    RelationView { from, to, kind, evidence: seq![evidence], confidence }
}

/// Whether entity identifiers are strictly increasing.
pub open spec fn entities_sorted(s: Seq<EntityView>) -> bool {
    sorted_by(s, |x: EntityView| entity_key(x))
}

/// The relations leaving `id`, in order.
pub open spec fn outgoing_of(s: Seq<RelationView>, id: Seq<char>) -> Seq<RelationView> {
    s.filter(|r: RelationView| r.from == id)
}

/// The relations arriving at `id`, in order.
pub open spec fn incoming_of(s: Seq<RelationView>, id: Seq<char>) -> Seq<RelationView> {
    s.filter(|r: RelationView| r.to == id)
}

/// Entities and the relations between them, with the evidence for each
/// relation.
#[derive(Debug)]
pub struct EvidenceGraph {
    entities: Vec<Entity>,
    relations: Vec<Relation>,
}

impl View for EvidenceGraph {
    type V = GraphView;

    closed spec fn view(&self) -> GraphView {
        GraphView {
            entities: self.entities@.map_values(|e: Entity| e@),
            relations: self.relations@.map_values(|r: Relation| r@),
        }
    }
}

impl EvidenceGraph {
    #[verifier::type_invariant]
    closed spec fn ordered(self) -> bool {
        entities_sorted(self@.entities)
    }

    /// The entities of a graph are ordered by identifier, each identifier
    /// once.
    pub fn note_sorted(&self)
        ensures
            entities_sorted(self@.entities),
    {
        proof {
            use_type_invariant(self);
        }
    }

    pub fn new() -> (r: Self)
        ensures
            r@.entities == Seq::<EntityView>::empty(),
            r@.relations == Seq::<RelationView>::empty(),
    {
        let r = EvidenceGraph { entities: Vec::new(), relations: Vec::new() };
        assert(r@.entities =~= Seq::<EntityView>::empty());
        assert(r@.relations =~= Seq::<RelationView>::empty());
        r
    }

    pub fn entity_count(&self) -> (r: usize)
        ensures
            r == self@.entities.len(),
    {
        self.entities.len()
    }

    pub fn relation_count(&self) -> (r: usize)
        ensures
            r == self@.relations.len(),
    {
        self.relations.len()
    }

    pub fn is_empty(&self) -> (r: bool)
        ensures
            r == (self@.entities.len() == 0 && self@.relations.len() == 0),
    {
        self.entities.len() == 0 && self.relations.len() == 0
    }

    /// The entities, in identifier order.
    pub fn entities(&self) -> (r: std::slice::Iter<'_, Entity>)
        ensures
            r.remaining().map_values(|e: &Entity| e@) == self@.entities,
    {
        let r = self.entities.iter();
        assert(r.remaining().map_values(|e: &Entity| e@) =~= self@.entities);
        r
    }

    /// The relations, in the order they were first added.
    pub fn relations(&self) -> (r: std::slice::Iter<'_, Relation>)
        ensures
            r.remaining().map_values(|e: &Relation| e@) == self@.relations,
    {
        let r = self.relations.iter();
        assert(r.remaining().map_values(|e: &Relation| e@) =~= self@.relations);
        r
    }

    /// The relations leaving `id`, in order.
    pub fn outgoing(&self, id: &EntityId) -> (r: Vec<&Relation>)
        ensures
            r@.map_values(|e: &Relation| e@) == outgoing_of(self@.relations, id@),
    {
        let mut r: Vec<&Relation> = Vec::new();
        let mut i: usize = 0;
        while i < self.relations.len()
            invariant
                i <= self.relations.len(),
                r@.map_values(|e: &Relation| e@) == outgoing_of(self@.relations.take(i as int), id@),
            decreases self.relations.len() - i,
        {
            let ghost before = r@.map_values(|e: &Relation| e@);
            let rel = &self.relations[i];
            assert(self@.relations[i as int] == rel@);
            proof {
                reveal_with_fuel(Seq::filter, 1);
                assert(self@.relations.take(i + 1).drop_last() =~= self@.relations.take(i as int));
            }
            if rel.from.same(id) {
                r.push(rel);
                assert(r@.map_values(|e: &Relation| e@) =~= before.push(rel@));
            }
            i += 1;
        }
        assert(self@.relations.take(self.relations.len() as int) =~= self@.relations);
        r
    }

    /// The relations arriving at `id`, in order.
    pub fn incoming(&self, id: &EntityId) -> (r: Vec<&Relation>)
        ensures
            r@.map_values(|e: &Relation| e@) == incoming_of(self@.relations, id@),
    {
        let mut r: Vec<&Relation> = Vec::new();
        let mut i: usize = 0;
        while i < self.relations.len()
            invariant
                i <= self.relations.len(),
                r@.map_values(|e: &Relation| e@) == incoming_of(self@.relations.take(i as int), id@),
            decreases self.relations.len() - i,
        {
            let ghost before = r@.map_values(|e: &Relation| e@);
            let rel = &self.relations[i];
            assert(self@.relations[i as int] == rel@);
            proof {
                reveal_with_fuel(Seq::filter, 1);
                assert(self@.relations.take(i + 1).drop_last() =~= self@.relations.take(i as int));
            }
            if rel.to.same(id) {
                r.push(rel);
                assert(r@.map_values(|e: &Relation| e@) =~= before.push(rel@));
            }
            i += 1;
        }
        assert(self@.relations.take(self.relations.len() as int) =~= self@.relations);
        r
    }

    /// The entity at position `i` in identifier order.
    pub fn entity_at(&self, i: usize) -> (r: &Entity)
        requires
            i < self@.entities.len(),
        ensures
            r@ == self@.entities[i as int],
    {
        &self.entities[i]
    }

    /// The relation at position `i`.
    pub fn relation_at(&self, i: usize) -> (r: &Relation)
        requires
            i < self@.relations.len(),
        ensures
            r@ == self@.relations[i as int],
    {
        &self.relations[i]
    }

    /// Where the entity with identifier `id` is, or where it would go.
    fn locate(&self, id: &str) -> (r: (usize, bool))
        ensures
            r.0 <= self@.entities.len(),
            forall|j: int| 0 <= j < r.0 ==> text_lt(#[trigger] self@.entities[j].id, id@),
            r.1 ==> r.0 < self@.entities.len() && self@.entities[r.0 as int].id == id@,
            !r.1 ==> r.0 == self@.entities.len() || text_lt(id@, self@.entities[r.0 as int].id),
    {
        let mut i: usize = 0;
        while i < self.entities.len()
            invariant
                i <= self.entities.len(),
                self@.entities.len() == self.entities.len(),
                forall|j: int| 0 <= j < i ==> text_lt(#[trigger] self@.entities[j].id, id@),
            decreases self.entities.len() - i,
        {
            assert(self@.entities[i as int] == self.entities@[i as int]@);
            let c = compare_text(self.entities[i].id.as_str(), id);
            if c == 0 {
                return (i, true);
            }
            if c > 0 {
                return (i, false);
            }
            i += 1;
        }
        (i, false)
    }


    /// Adds `entity`, or merges it into the entity with its identifier, and
    /// returns its identifier.
    pub fn add_entity(&mut self, entity: Entity) -> (r: EntityId)
        ensures
            r@ == entity@.id,
            final(self)@.entities == entities_add(old(self)@.entities, entity@),
            final(self)@.relations == old(self)@.relations,
    {
        proof {
            use_type_invariant(&*self);
        }
        let id = entity.id.duplicate();
        let (i, found) = self.locate(entity.id.as_str());
        let ghost s = self@.entities;
        let ghost kf = |x: EntityView| entity_key(x);
        let ghost mf = |a: EntityView, b: EntityView| merge_entity(a, b);
        proof {
            assert forall|a: EntityView, b: EntityView| kf(a) == kf(b) implies #[trigger] kf(mf(a, b)) == kf(a) by {}
            lemma_keyed_insert_prefix(s, entity@, kf, mf, i as int);
            lemma_keyed_insert_sorted(s, entity@, kf, mf);
            assert(entities_add(s, entity@) == keyed_insert(s, entity@, kf, mf));
        }
        let ghost rest = s.skip(i as int);
        let mut entities: Vec<Entity> = Vec::new();
        std::mem::swap(&mut entities, &mut self.entities);
        assert(entities@.map_values(|e: Entity| e@) == s);
        if found {
            assert(rest[0] == s[i as int]);
            let mut existing = entities.remove(i);
            let existing_placeholder = starts_with_text(existing.name.as_str(), "PID ");
            let added_placeholder = starts_with_text(entity.name.as_str(), "PID ");
            if existing_placeholder && !added_placeholder {
                existing.name = entity.name;
            }
            existing.metadata.extend(entity.metadata);
            assert(existing@ == merge_entity(s[i as int], entity@));
            entities.insert(i, existing);
            assert(entities@.map_values(|e: Entity| e@) =~= s.take(i as int) + keyed_insert(rest, entity@, kf, mf));
        } else {
            proof {
                if i < s.len() {
                    assert(rest[0] == s[i as int]);
                    lemma_text_lt_irreflexive(entity@.id);
                }
            }
            entities.insert(i, entity);
            assert(entities@.map_values(|e: Entity| e@) =~= s.take(i as int) + keyed_insert(rest, entity@, kf, mf));
        }
        self.entities = entities;
        id
    }

    /// Adds `relation`, or merges it into the relation with the same edge:
    /// the stronger confidence is kept and new evidence is appended.
    pub fn add_relation(&mut self, relation: Relation)
        ensures
            final(self)@.entities == old(self)@.entities,
            final(self)@.relations == relations_add(old(self)@.relations, relation@),
    {
        proof {
            use_type_invariant(&*self);
        }
        let ghost s = self@.relations;
        let mut i: usize = 0;
        let mut found = false;
        while i < self.relations.len()
            invariant_except_break
                !found,
            invariant
                i <= self.relations.len(),
                s == self@.relations,
                s.len() == self.relations.len(),
                find_edge_from(s, relation@, 0) == find_edge_from(s, relation@, i as int),
            ensures
                found ==> i < s.len() && find_edge_from(s, relation@, 0) == Some(i as int),
                !found ==> find_edge_from(s, relation@, 0) is None,
            decreases self.relations.len() - i,
        {
            assert(s[i as int] == self.relations@[i as int]@);
            let r = &self.relations[i];
            if r.from.same(&relation.from) && r.to.same(&relation.to) && r.kind == relation.kind {
                found = true;
                break;
            }
            i += 1;
        }
        let mut relations: Vec<Relation> = Vec::new();
        std::mem::swap(&mut relations, &mut self.relations);
        assert(relations@.map_values(|r: Relation| r@) == s);
        if found {
            let mut existing = relations.remove(i);
            assert(existing@ == s[i as int]);
            existing.confidence = existing.confidence.max(relation.confidence);
            let ghost added = relation@.evidence;
            let mut j: usize = 0;
            assert(added.skip(0) =~= added);
            while j < relation.evidence.len()
                invariant
                    j <= relation.evidence.len(),
                    added == evidence_views(relation.evidence@),
                    added.len() == relation.evidence.len(),
                    i < s.len(),
                    existing@.from == s[i as int].from,
                    existing@.to == s[i as int].to,
                    existing@.kind == s[i as int].kind,
                    existing@.confidence == stronger(s[i as int].confidence, relation@.confidence),
                    evidence_union(s[i as int].evidence, added) == evidence_union(
                        evidence_views(existing.evidence@),
                        added.skip(j as int),
                    ),
                decreases relation.evidence.len() - j,
            {
                let ghost cur = evidence_views(existing.evidence@);
                assert(added.skip(j as int)[0] == relation.evidence@[j as int]@);
                assert(added.skip(j as int).drop_first() =~= added.skip(j + 1));
                if !contains_evidence(&existing.evidence, &relation.evidence[j]) {
                    let e = relation.evidence[j].duplicate();
                    existing.evidence.push(e);
                    assert(evidence_views(existing.evidence@) =~= cur.push(e@));
                }
                j += 1;
            }
            assert(added.skip(relation.evidence.len() as int) =~= Seq::<EvidenceView>::empty());
            assert(existing@ == merge_relation(s[i as int], relation@));
            relations.insert(i, existing);
            assert(relations@.map_values(|r: Relation| r@) =~= relations_add(s, relation@));
        } else {
            relations.push(relation);
            assert(relations@.map_values(|r: Relation| r@) =~= relations_add(s, relation@));
        }
        self.relations = relations;
    }

    /// The entity with identifier `id`.
    pub fn entity(&self, id: &EntityId) -> (r: Option<&Entity>)
        ensures
            match r {
                Some(e) => find_entity(self@.entities, id@) == Some(e@),
                None => find_entity(self@.entities, id@) is None,
            },
    {
        proof {
            use_type_invariant(self);
        }
        let (i, found) = self.locate(id.as_str());
        proof {
            lemma_find_entity_prefix(self@.entities, id@, i as int);
        }
        if found {
            assert(self@.entities[i as int] == self.entities@[i as int]@);
            Some(&self.entities[i])
        } else {
            proof {
                lemma_find_entity_absent(self@.entities.skip(i as int), id@, self@.entities, i as int);
            }
            None
        }
    }
}

/// Whether `v` holds a piece of evidence equal to `e`.
pub fn contains_evidence(v: &Vec<Evidence>, e: &Evidence) -> (r: bool)
    ensures
        r == evidence_views(v@).contains(e@),
{
    let mut i: usize = 0;
    while i < v.len()
        invariant
            i <= v.len(),
            forall|j: int| 0 <= j < i ==> v@[j]@ != e@,
        decreases v.len() - i,
    {
        if v[i].same(e) {
            assert(evidence_views(v@)[i as int] == e@);
            return true;
        }
        i += 1;
    }
    assert forall|j: int| 0 <= j < evidence_views(v@).len() implies evidence_views(v@)[j] != e@ by {
        assert(evidence_views(v@)[j] == v@[j]@);
    }
    false
}

impl Clone for EvidenceGraph {
    fn clone(&self) -> (r: Self)
        ensures
            r@ == self@,
    {
        proof {
            use_type_invariant(self);
        }
        let mut entities: Vec<Entity> = Vec::new();
        let mut i: usize = 0;
        while i < self.entities.len()
            invariant
                i <= self.entities.len(),
                entities@.map_values(|e: Entity| e@) == self@.entities.take(i as int),
            decreases self.entities.len() - i,
        {
            let e = self.entities[i].duplicate();
            let ghost before = entities@.map_values(|e: Entity| e@);
            entities.push(e);
            assert(entities@.map_values(|e: Entity| e@) =~= before.push(e@));
            assert(self@.entities.take(i + 1) =~= self@.entities.take(i as int).push(self.entities@[i as int]@));
            i += 1;
        }
        let mut relations: Vec<Relation> = Vec::new();
        let mut j: usize = 0;
        while j < self.relations.len()
            invariant
                j <= self.relations.len(),
                relations@.map_values(|r: Relation| r@) == self@.relations.take(j as int),
            decreases self.relations.len() - j,
        {
            let r = self.relations[j].duplicate();
            let ghost before = relations@.map_values(|r: Relation| r@);
            relations.push(r);
            assert(relations@.map_values(|r: Relation| r@) =~= before.push(r@));
            assert(self@.relations.take(j + 1) =~= self@.relations.take(j as int).push(self.relations@[j as int]@));
            j += 1;
        }
        assert(self@.entities.take(self.entities.len() as int) =~= self@.entities);
        assert(self@.relations.take(self.relations.len() as int) =~= self@.relations);
        let r = EvidenceGraph { entities, relations };
        assert(r@.entities =~= self@.entities);
        assert(r@.relations =~= self@.relations);
        r
    }
}

proof fn lemma_find_entity_prefix(s: Seq<EntityView>, id: Seq<char>, i: int)
    requires
        0 <= i <= s.len(),
        forall|j: int| 0 <= j < i ==> text_lt(#[trigger] s[j].id, id),
    ensures
        find_entity(s, id) == find_entity(s.skip(i), id),
    decreases i,
{
    if i > 0 {
        lemma_text_lt_irreflexive(id);
        let t = s.drop_first();
        assert forall|j: int| 0 <= j < i - 1 implies text_lt(#[trigger] t[j].id, id) by {
            assert(t[j] == s[j + 1]);
        }
        lemma_find_entity_prefix(t, id, i - 1);
        assert(t.skip(i - 1) =~= s.skip(i));
    } else {
        assert(s.skip(0) =~= s);
    }
}

proof fn lemma_find_entity_absent(t: Seq<EntityView>, id: Seq<char>, s: Seq<EntityView>, i: int)
    requires
        0 <= i <= s.len(),
        t == s.skip(i),
        entities_sorted(s),
        t.len() == 0 || text_lt(id, t[0].id),
    ensures
        find_entity(t, id) is None,
    decreases t.len(),
{
    if t.len() > 0 {
        lemma_text_lt_irreflexive(id);
        let u = t.drop_first();
        if u.len() > 0 {
            assert(u[0] == s[i + 1]);
            assert(t[0] == s[i]);
            assert(text_lt(entity_key(s[i]), entity_key(s[i + 1])));
            crate::domain::text::lemma_text_lt_transitive(id, t[0].id, u[0].id);
        }
        assert(u =~= s.skip(i + 1));
        lemma_find_entity_absent(u, id, s, i + 1);
    }
}

} // verus!
