use vstd::prelude::*;
use crate::cli::plain::{simplifies_graph, styled, styled_text, PlainRenderMode};
use crate::domain::confidence::{confidence_name, Confidence};
use crate::domain::entity::{EntityId, EntityView};
use crate::domain::evidence::{Evidence, EvidenceView};
use crate::domain::graph::{find_entity, incoming_of, outgoing_of, same_edge, EvidenceGraph, GraphView};
use crate::domain::graph_laws::edges_unique;
use crate::domain::number::{decimal, push_decimal};
use crate::domain::relation::{evidence_views, relation_kind_label, Relation, RelationKind, RelationView};
use crate::backend::id_views;
use crate::domain::scan::views;
use crate::domain::text::{owned, text_eq};

verus! {

// ---------------------------------------------------------------------------
// Labels and evidence references
// ---------------------------------------------------------------------------

/// The name of the entity `id`, or `id` itself where the graph has no such
/// entity.
pub open spec fn name_or_id(g: GraphView, id: Seq<char>) -> Seq<char> {
    match find_entity(g.entities, id) {
        Some(e) => e.name,
        None => id,
    }
}

/// Whether `n` names one of the systemd units that every service depends
/// on.
pub open spec fn low_signal_name(n: Seq<char>) -> bool {
    ||| n == "-.mount"@
    ||| n == "basic.target"@
    ||| n == "init.scope"@
    ||| n == "local-fs.target"@
    ||| n == "paths.target"@
    ||| n == "shutdown.target"@
    ||| n == "slices.target"@
    ||| n == "sockets.target"@
    ||| n == "sysinit.target"@
    ||| n == "system.slice"@
}

/// Whether some of the evidence comes from the systemd backend.
pub open spec fn from_systemd(evs: Seq<EvidenceView>) -> bool {
    exists|k: int| 0 <= k < evs.len() && #[trigger] evs[k].backend == "systemd"@
}

/// Whether a relation is a dependency, reported by systemd, on one of the
/// units every service depends on.
pub open spec fn low_signal_unit(g: GraphView, rel: RelationView) -> bool {
    &&& (rel.kind == RelationKind::Requires || rel.kind == RelationKind::References)
    &&& from_systemd(rel.evidence)
    &&& match find_entity(g.entities, rel.to) {
        Some(e) => low_signal_name(e.name),
        None => false,
    }
}

/// Whether no relation leaves `id`.
pub open spec fn is_leaf(g: GraphView, id: Seq<char>) -> bool {
    outgoing_of(g.relations, id).len() == 0
}

/// The number of pieces of evidence of the relations.
pub open spec fn evidence_total(rels: Seq<RelationView>) -> nat
    decreases rels.len(),
{
    if rels.len() == 0 {
        0
    } else {
        evidence_total(rels.drop_last()) + rels.last().evidence.len()
    }
}

/// The label of the `n`-th piece of evidence of a graph, counting from one.
pub open spec fn evidence_label(n: nat) -> Seq<char> {
    "e"@ + decimal(n)
}

/// References to the pieces of evidence `evs` of one relation, the first
/// of which is numbered `base + 1`.
pub open spec fn relation_refs(evs: Seq<EvidenceView>, base: nat) -> Seq<(Seq<char>, Confidence)>
    decreases evs.len(),
{
    if evs.len() == 0 {
        Seq::empty()
    } else {
        relation_refs(evs.drop_last(), base).push((evidence_label(base + evs.len()), evs.last().confidence))
    }
}

/// References to the evidence of the relations of `rels` with the edge of
/// `rel`, numbered by their place among all the evidence of `rels`.
pub open spec fn refs_in(rels: Seq<RelationView>, rel: RelationView) -> Seq<(Seq<char>, Confidence)>
    decreases rels.len(),
{
    if rels.len() == 0 {
        Seq::empty()
    } else if same_edge(rels.last(), rel) {
        refs_in(rels.drop_last(), rel) + relation_refs(rels.last().evidence, evidence_total(rels.drop_last()))
    } else {
        refs_in(rels.drop_last(), rel)
    }
}

/// Whether all references have the confidence of the first.
pub open spec fn same_confidence(refs: Seq<(Seq<char>, Confidence)>) -> bool {
    forall|k: int| 0 <= k < refs.len() ==> #[trigger] refs[k].1 == refs[0].1
}

/// The marker that cites evidence after a relation: the first reference,
/// how many more there are, and the confidence where all agree.
pub open spec fn marker_text(refs: Seq<(Seq<char>, Confidence)>) -> Seq<char> {
    if refs.len() == 0 {
        Seq::empty()
    } else if refs.len() == 1 {
        " ["@ + refs[0].0 + " "@ + confidence_name(refs[0].1) + "]"@
    } else if same_confidence(refs) {
        " ["@ + refs[0].0 + " +"@ + decimal((refs.len() - 1) as nat) + " "@ + confidence_name(refs[0].1) + "]"@
    } else {
        " ["@ + refs[0].0 + " +"@ + decimal((refs.len() - 1) as nat) + "]"@
    }
}

// ---------------------------------------------------------------------------
// The items under an entity
// ---------------------------------------------------------------------------

/// One line of the tree under an entity: a relation to a target, or a group
/// of relations of one kind to targets with the same label.
pub struct ItemView {
    pub to: Seq<char>,
    pub kind: RelationKind,
    pub label: Seq<char>,
    pub refs: Seq<(Seq<char>, Confidence)>,
    pub count: nat,
}

/// The first item at or after `i` of kind `kind` with label `label`.
pub open spec fn find_item_from(items: Seq<ItemView>, kind: RelationKind, label: Seq<char>, i: int) -> Option<int>
    decreases items.len() - i,
{
    if i < 0 || i >= items.len() {
        None
    } else if items[i].kind == kind && items[i].label == label {
        Some(i)
    } else {
        find_item_from(items, kind, label, i + 1)
    }
}

/// The items after taking in relation `rel`: a relation to a leaf, or a
/// low-signal systemd dependency where the mode simplifies, joins the first
/// item of its kind and label; any other starts an item of its own.
pub open spec fn add_item(g: GraphView, items: Seq<ItemView>, rel: RelationView, mode: PlainRenderMode) -> Seq<ItemView> {
    let compact = simplifies_graph(mode) && low_signal_unit(g, rel);
    let label = if compact { "systemd base units"@ } else { name_or_id(g, rel.to) };
    let can_group = compact || is_leaf(g, rel.to);
    let refs = refs_in(g.relations, rel);
    match if can_group { find_item_from(items, rel.kind, label, 0) } else { None } {
        Some(k) => items.update(k, ItemView { refs: items[k].refs + refs, count: items[k].count + 1, ..items[k] }),
        None => items.push(ItemView { to: rel.to, kind: rel.kind, label, refs, count: 1 }),
    }
}

/// The items after taking in each of `rels` in order.
pub open spec fn items_fold(g: GraphView, rels: Seq<RelationView>, mode: PlainRenderMode) -> Seq<ItemView>
    decreases rels.len(),
{
    if rels.len() == 0 {
        Seq::empty()
    } else {
        add_item(g, items_fold(g, rels.drop_last(), mode), rels.last(), mode)
    }
}

/// An item with its final label: a group of several leaves shows how many
/// there are.
pub open spec fn finished_item(g: GraphView, it: ItemView) -> ItemView {
    if it.count > 1 && is_leaf(g, it.to) {
        ItemView { label: it.label + " ("@ + decimal(it.count) + ")"@, ..it }
    } else {
        it
    }
}

/// The items shown under entity `id`.
pub open spec fn render_items_spec(g: GraphView, id: Seq<char>, mode: PlainRenderMode) -> Seq<ItemView> {
    items_fold(g, outgoing_of(g.relations, id), mode).map_values(|it: ItemView| finished_item(g, it))
}

// ---------------------------------------------------------------------------
// Computing labels, references and items
// ---------------------------------------------------------------------------

pub(crate) fn name_or_id_text(graph: &EvidenceGraph, id: &EntityId) -> (r: String)
    ensures
        r@ == name_or_id(graph@, id@),
{
    match graph.entity(id) {
        Some(e) => e.name.clone(),
        None => id.to_string(),
    }
}

fn low_signal_name_text(n: &str) -> (r: bool)
    ensures
        r == low_signal_name(n@),
{
    text_eq(n, "-.mount") || text_eq(n, "basic.target") || text_eq(n, "init.scope") || text_eq(n, "local-fs.target")
        || text_eq(n, "paths.target") || text_eq(n, "shutdown.target") || text_eq(n, "slices.target") || text_eq(
        n,
        "sockets.target",
    ) || text_eq(n, "sysinit.target") || text_eq(n, "system.slice")
}

fn has_systemd_evidence(evs: &Vec<Evidence>) -> (r: bool)
    ensures
        r == from_systemd(evidence_views(evs@)),
{
    let ghost ev = evidence_views(evs@);
    let mut k: usize = 0;
    while k < evs.len()
        invariant
            k <= evs.len(),
            ev == evidence_views(evs@),
            forall|j: int| 0 <= j < k ==> ev[j].backend != "systemd"@,
        decreases evs.len() - k,
    {
        assert(ev[k as int] == evs@[k as int]@);
        if text_eq(evs[k].backend.as_str(), "systemd") {
            assert(ev[k as int].backend == "systemd"@);
            return true;
        }
        k += 1;
    }
    false
}

fn is_low_signal(graph: &EvidenceGraph, rel: &Relation) -> (r: bool)
    ensures
        r == low_signal_unit(graph@, rel@),
{
    if !(rel.kind == RelationKind::Requires || rel.kind == RelationKind::References) {
        return false;
    }
    if !has_systemd_evidence(&rel.evidence) {
        return false;
    }
    match graph.entity(&rel.to) {
        Some(e) => low_signal_name_text(e.name.as_str()),
        None => false,
    }
}

fn has_outgoing(graph: &EvidenceGraph, id: &EntityId) -> (r: bool)
    ensures
        r == !is_leaf(graph@, id@),
{
    let out = graph.outgoing(id);
    assert(out@.map_values(|e: &Relation| e@).len() == out@.len());
    out.len() > 0
}

pub(crate) proof fn lemma_evidence_total_take(rels: Seq<RelationView>, j: int)
    requires
        0 <= j < rels.len(),
    ensures
        evidence_total(rels.take(j + 1)) == evidence_total(rels.take(j)) + rels[j].evidence.len(),
        evidence_total(rels.take(j + 1)) <= evidence_total(rels),
    decreases rels.len() - j,
{
    assert(rels.take(j + 1).drop_last() =~= rels.take(j));
    if j + 1 < rels.len() {
        lemma_evidence_total_take(rels, j + 1);
    } else {
        assert(rels.take(j + 1) =~= rels);
    }
}

/// A reference to a piece of evidence: its label and confidence.
#[derive(Debug)]
struct EvidenceRef {
    id: String,
    confidence: Confidence,
}

impl EvidenceRef {
    spec fn view_pair(&self) -> (Seq<char>, Confidence) {
        (self.id@, self.confidence)
    }

    fn duplicate(&self) -> (r: Self)
        ensures
            r.view_pair() == self.view_pair(),
    {
        EvidenceRef { id: self.id.clone(), confidence: self.confidence }
    }
}

spec fn ref_views(v: Seq<EvidenceRef>) -> Seq<(Seq<char>, Confidence)> {
    v.map_values(|r: EvidenceRef| r.view_pair())
}

fn evidence_refs(graph: &EvidenceGraph, rel: &Relation) -> (r: Vec<EvidenceRef>)
    requires
        evidence_total(graph@.relations) < i32::MAX,
    ensures
        ref_views(r@) == refs_in(graph@.relations, rel@),
{
    let ghost rels = graph@.relations;
    let mut refs: Vec<EvidenceRef> = Vec::new();
    let mut index: u64 = 1;
    let mut j: usize = 0;
    while j < graph.relation_count()
        invariant
            j <= rels.len(),
            rels == graph@.relations,
            evidence_total(rels) < i32::MAX,
            index == 1 + evidence_total(rels.take(j as int)),
            ref_views(refs@) == refs_in(rels.take(j as int), rel@),
        decreases rels.len() - j,
    {
        let existing = graph.relation_at(j);
        let same = existing.from.same(&rel.from) && existing.to.same(&rel.to) && existing.kind == rel.kind;
        let ghost base = evidence_total(rels.take(j as int));
        let ghost evs = existing@.evidence;
        let ghost start = ref_views(refs@);
        proof {
            lemma_evidence_total_take(rels, j as int);
        }
        let mut k: usize = 0;
        while k < existing.evidence.len()
            invariant
                k <= existing.evidence.len(),
                evs == evidence_views(existing.evidence@),
                index == 1 + base + k,
                base + evs.len() <= evidence_total(rels),
                evidence_total(rels) < i32::MAX,
                ref_views(refs@) == if same { start + relation_refs(evs.take(k as int), base) } else { start },
            decreases existing.evidence.len() - k,
        {
            if same {
                let mut id = owned("e");
                push_decimal(&mut id, index);
                let ghost before = ref_views(refs@);
                refs.push(EvidenceRef { id, confidence: existing.evidence[k].confidence });
                assert(evs.take(k + 1).drop_last() =~= evs.take(k as int));
                assert(evs[k as int] == existing.evidence@[k as int]@);
                assert(ref_views(refs@) =~= before.push((evidence_label((base + k + 1) as nat), evs[k as int].confidence)));
            }
            index += 1;
            k += 1;
        }
        assert(evs.take(k as int) =~= evs);
        assert(rels.take(j + 1).drop_last() =~= rels.take(j as int));
        assert(rels.take(j + 1).last() == existing@);
        j += 1;
    }
    assert(rels.take(j as int) =~= rels);
    refs
}

fn evidence_marker(refs: &Vec<EvidenceRef>) -> (r: String)
    ensures
        r@ == marker_text(ref_views(refs@)),
{
    let ghost rv = ref_views(refs@);
    if refs.len() == 0 {
        return String::new();
    }
    assert(rv[0] == refs@[0].view_pair());
    let first = &refs[0];
    if refs.len() == 1 {
        let mut r = owned(" [");
        r.append(first.id.as_str());
        r.append(" ");
        r.append(first.confidence.as_str());
        r.append("]");
        return r;
    }
    let mut all_same = true;
    let mut k: usize = 0;
    while k < refs.len()
        invariant
            k <= refs.len(),
            rv == ref_views(refs@),
            refs.len() > 1,
            first.view_pair() == rv[0],
            all_same == (forall|j: int| 0 <= j < k ==> #[trigger] rv[j].1 == rv[0].1),
        decreases refs.len() - k,
    {
        assert(rv[k as int] == refs@[k as int].view_pair());
        let ghost was = all_same;
        let differs = refs[k].confidence != first.confidence;
        if differs {
            all_same = false;
        }
        proof {
            if all_same {
                assert forall|j: int| 0 <= j < k + 1 implies #[trigger] rv[j].1 == rv[0].1 by {
                    if j < k {
                        assert(was);
                    }
                }
            } else if differs {
                assert(rv[k as int].1 != rv[0].1);
            } else {
                assert(!was);
            }
        }
        k += 1;
    }
    let mut r = owned(" [");
    r.append(first.id.as_str());
    r.append(" +");
    push_decimal(&mut r, (refs.len() - 1) as u64);
    if all_same {
        r.append(" ");
        r.append(first.confidence.as_str());
    }
    r.append("]");
    r
}

/// An item of the tree being computed.
#[derive(Debug)]
struct RenderItem {
    to: EntityId,
    kind: RelationKind,
    target_label: String,
    evidence: Vec<EvidenceRef>,
    target_count: usize,
}

impl RenderItem {
    spec fn item_view(&self) -> ItemView {
        ItemView {
            to: self.to@,
            kind: self.kind,
            label: self.target_label@,
            refs: ref_views(self.evidence@),
            count: self.target_count as nat,
        }
    }
}

spec fn item_views(v: Seq<RenderItem>) -> Seq<ItemView> {
    v.map_values(|it: RenderItem| it.item_view())
}

fn find_item(items: &Vec<RenderItem>, kind: RelationKind, label: &str) -> (r: Option<usize>)
    ensures
        match r {
            Some(k) => k < items.len() && find_item_from(item_views(items@), kind, label@, 0) == Some(k as int),
            None => find_item_from(item_views(items@), kind, label@, 0) is None,
        },
{
    let ghost iv = item_views(items@);
    let mut k: usize = 0;
    while k < items.len()
        invariant
            k <= items.len(),
            iv == item_views(items@),
            find_item_from(iv, kind, label@, 0) == find_item_from(iv, kind, label@, k as int),
        decreases items.len() - k,
    {
        assert(iv[k as int] == items@[k as int].item_view());
        if items[k].kind == kind && text_eq(items[k].target_label.as_str(), label) {
            return Some(k);
        }
        k += 1;
    }
    None
}

fn append_refs(to: &mut Vec<EvidenceRef>, from: &Vec<EvidenceRef>)
    ensures
        ref_views(final(to)@) == ref_views(old(to)@) + ref_views(from@),
{
    let ghost start = ref_views(to@);
    let mut k: usize = 0;
    while k < from.len()
        invariant
            k <= from.len(),
            ref_views(to@) == start + ref_views(from@).take(k as int),
        decreases from.len() - k,
    {
        let ghost before = ref_views(to@);
        to.push(from[k].duplicate());
        assert(ref_views(to@) =~= before.push(from@[k as int].view_pair()));
        assert(ref_views(from@).take(k + 1) =~= ref_views(from@).take(k as int).push(from@[k as int].view_pair()));
        k += 1;
    }
    assert(ref_views(from@).take(from.len() as int) =~= ref_views(from@));
}

fn render_items(graph: &EvidenceGraph, id: &EntityId, mode: PlainRenderMode) -> (r: Vec<RenderItem>)
    requires
        evidence_total(graph@.relations) < i32::MAX,
    ensures
        item_views(r@) == render_items_spec(graph@, id@, mode),
{
    let rels = graph.outgoing(id);
    let ghost rv = rels@.map_values(|e: &Relation| e@);
    let mut items: Vec<RenderItem> = Vec::new();
    let mut i: usize = 0;
    assert(rv.take(0) =~= Seq::<RelationView>::empty());
    assert(item_views(items@) =~= Seq::<ItemView>::empty());
    while i < rels.len()
        invariant
            i <= rels.len(),
            rv == rels@.map_values(|e: &Relation| e@),
            rv == outgoing_of(graph@.relations, id@),
            evidence_total(graph@.relations) < i32::MAX,
            item_views(items@) == items_fold(graph@, rv.take(i as int), mode),
            forall|k: int| 0 <= k < items.len() ==> #[trigger] items@[k].target_count <= i,
        decreases rels.len() - i,
    {
        let relation = rels[i];
        proof {
            assert(rv.take(i + 1).drop_last() =~= rv.take(i as int));
            assert(rv.take(i + 1).last() == relation@);
        }
        let ghost iv = item_views(items@);
        let compact = simplifies_mode(mode) && is_low_signal(graph, relation);
        let target_label = if compact {
            owned("systemd base units")
        } else {
            name_or_id_text(graph, &relation.to)
        };
        let can_group = compact || !has_outgoing(graph, &relation.to);
        let existing = if can_group {
            find_item(&items, relation.kind, target_label.as_str())
        } else {
            None
        };
        let refs = evidence_refs(graph, relation);
        match existing {
            Some(k) => {
                let mut item = items.remove(k);
                assert(iv[k as int] == item.item_view());
                append_refs(&mut item.evidence, &refs);
                item.target_count = item.target_count + 1;
                items.insert(k, item);
                assert(item_views(items@) =~= iv.update(
                    k as int,
                    ItemView { refs: iv[k as int].refs + ref_views(refs@), count: iv[k as int].count + 1, ..iv[k as int] },
                ));
            },
            None => {
                items.push(
                    RenderItem {
                        to: relation.to.duplicate(),
                        kind: relation.kind,
                        target_label,
                        evidence: refs,
                        target_count: 1,
                    },
                );
                assert(item_views(items@) =~= iv.push(items@[iv.len() as int].item_view()));
            },
        }
        i += 1;
    }
    assert(rv.take(rels.len() as int) =~= rv);
    let ghost folded = item_views(items@);
    assert(folded.len() == items.len());
    let mut finished: Vec<RenderItem> = Vec::new();
    let mut k: usize = 0;
    while items.len() > 0
        invariant
            k + items.len() == folded.len(),
            folded.len() <= usize::MAX,
            item_views(items@) == folded.skip(k as int),
            item_views(finished@) == folded.take(k as int).map_values(|it: ItemView| finished_item(graph@, it)),
        decreases items.len(),
    {
        let ghost before_items = item_views(items@);
        assert(before_items[0] == items@[0].item_view());
        assert(folded.skip(k as int)[0] == folded[k as int]);
        let mut item = items.remove(0);
        assert(folded[k as int] == item.item_view());
        assert(item_views(items@) =~= before_items.drop_first());
        assert(folded.skip(k as int).drop_first() =~= folded.skip(k + 1));
        if item.target_count > 1 && !has_outgoing(graph, &item.to) {
            item.target_label.append(" (");
            push_decimal(&mut item.target_label, item.target_count as u64);
            item.target_label.append(")");
        }
        let ghost before = item_views(finished@);
        finished.push(item);
        assert(item_views(finished@) =~= before.push(finished_item(graph@, folded[k as int])));
        assert(folded.take(k + 1) =~= folded.take(k as int).push(folded[k as int]));
        k += 1;
    }
    assert(folded.take(k as int) =~= folded);
    finished
}

fn simplifies_mode(mode: PlainRenderMode) -> (r: bool)
    ensures
        r == simplifies_graph(mode),
{
    match mode {
        PlainRenderMode::Compact | PlainRenderMode::Evidence => true,
        _ => false,
    }
}

// ---------------------------------------------------------------------------
// The tree under an entity
// ---------------------------------------------------------------------------

/// The branch drawn before an item.
pub open spec fn branch(last: bool) -> Seq<char> {
    if last {
        "\u{2514}\u{2500}\u{2500}"@
    } else {
        "\u{251c}\u{2500}\u{2500}"@
    }
}

/// What the lines under an item are indented by, after the item's own
/// indentation.
pub open spec fn child_prefix(last: bool) -> Seq<char> {
    if last {
        "    "@
    } else {
        "\u{2502}   "@
    }
}

/// The line of an item: the branch, the relation, the target and the
/// evidence marker.
pub open spec fn item_line(it: ItemView, prefix: Seq<char>, last: bool, color: bool) -> Seq<char> {
    prefix + styled(branch(last), "90"@, color) + " "@ + relation_kind_label(it.kind) + " "@ + styled(it.label, "97"@, color)
        + styled(marker_text(it.refs), "90"@, color)
}

/// The lines under entity `id`, each indented by `prefix`, going at most
/// `fuel` levels deep.
pub open spec fn children_lines(
    g: GraphView,
    id: Seq<char>,
    prefix: Seq<char>,
    mode: PlainRenderMode,
    color: bool,
    fuel: nat,
) -> Seq<Seq<char>>
    decreases fuel, 1nat, 0nat,
{
    if fuel == 0 {
        Seq::empty()
    } else {
        lines_from(g, render_items_spec(g, id, mode), 0, prefix, mode, color, fuel)
    }
}

/// The lines of the items from position `i` on, each followed by the lines
/// under its target.
pub open spec fn lines_from(
    g: GraphView,
    items: Seq<ItemView>,
    i: int,
    prefix: Seq<char>,
    mode: PlainRenderMode,
    color: bool,
    fuel: nat,
) -> Seq<Seq<char>>
    decreases fuel, 0nat, items.len() - i,
{
    if i < 0 || i >= items.len() || fuel == 0 {
        Seq::empty()
    } else {
        let last = i + 1 == items.len();
        seq![item_line(items[i], prefix, last, color)] + children_lines(
            g,
            items[i].to,
            prefix + child_prefix(last),
            mode,
            color,
            (fuel - 1) as nat,
        ) + lines_from(g, items, i + 1, prefix, mode, color, fuel)
    }
}

/// Whether every path of relations from `id` has fewer than `n` steps.
pub open spec fn bounded(g: GraphView, id: Seq<char>, n: nat) -> bool
    decreases n,
{
    n > 0 && forall|j: int|
        0 <= j < g.relations.len() && g.relations[j].from == id ==> bounded(g, #[trigger] g.relations[j].to, (n - 1) as nat)
}

/// Whether every path that the drawing of `id` in `mode` follows has fewer
/// than `n` steps: the drawing goes on only into the target of each item
/// drawn, so relations folded into a group after its first are not
/// followed.
pub open spec fn drawn_bounded(g: GraphView, id: Seq<char>, mode: PlainRenderMode, n: nat) -> bool
    decreases n,
{
    n > 0 && forall|k: int|
        #![trigger render_items_spec(g, id, mode)[k]]
        0 <= k < render_items_spec(g, id, mode).len() ==> drawn_bounded(
            g,
            render_items_spec(g, id, mode)[k].to,
            mode,
            (n - 1) as nat,
        )
}

/// The depth to which trees are drawn: one more than the number of
/// relations, which no path reaches where relations form no cycle.
pub open spec fn tree_depth(g: GraphView) -> nat {
    (g.relations.len() + 1) as nat
}

/// The lines for one root of the tree: its name and the lines under it.
pub open spec fn entity_tree(g: GraphView, id: Seq<char>, mode: PlainRenderMode, color: bool) -> Seq<Seq<char>> {
    match find_entity(g.entities, id) {
        Some(e) => seq![e.name] + children_lines(g, id, Seq::empty(), mode, color, tree_depth(g)),
        None => Seq::empty(),
    }
}

/// The lines for each of the roots in turn.
pub open spec fn roots_tree(g: GraphView, roots: Seq<Seq<char>>, mode: PlainRenderMode, color: bool) -> Seq<Seq<char>>
    decreases roots.len(),
{
    if roots.len() == 0 {
        Seq::empty()
    } else {
        roots_tree(g, roots.drop_last(), mode, color) + entity_tree(g, roots.last(), mode, color)
    }
}

/// Whether the tree under each root that is an entity can be drawn in
/// `mode`: no path that the drawing follows from it runs into a cycle. A
/// path followed without repeating an entity leaves each entity on it by a
/// different relation, so it is shorter than `tree_depth`; one that reaches
/// that depth repeats an entity, and its drawing would go on without end.
pub open spec fn tree_renderable(g: GraphView, roots: Seq<Seq<char>>, mode: PlainRenderMode) -> bool {
    forall|k: int|
        0 <= k < roots.len() && find_entity(g.entities, #[trigger] roots[k]) is Some ==> drawn_bounded(
            g,
            roots[k],
            mode,
            tree_depth(g),
        )
}

pub(crate) proof fn lemma_find_item_in_range(items: Seq<ItemView>, kind: RelationKind, label: Seq<char>, i: int)
    ensures
        find_item_from(items, kind, label, i) matches Some(k) ==> 0 <= k < items.len(),
    decreases items.len() - i,
{
    if 0 <= i < items.len() {
        lemma_find_item_in_range(items, kind, label, i + 1);
    }
}

proof fn lemma_fold_targets(g: GraphView, rels: Seq<RelationView>, mode: PlainRenderMode)
    ensures
        forall|k: int|
            0 <= k < items_fold(g, rels, mode).len() ==> exists|j: int|
                0 <= j < rels.len() && rels[j].to == #[trigger] items_fold(g, rels, mode)[k].to,
    decreases rels.len(),
{
    if rels.len() > 0 {
        let before = items_fold(g, rels.drop_last(), mode);
        lemma_fold_targets(g, rels.drop_last(), mode);
        let after = items_fold(g, rels, mode);
        let rel = rels.last();
        let compact = simplifies_graph(mode) && low_signal_unit(g, rel);
        let label = if compact { "systemd base units"@ } else { name_or_id(g, rel.to) };
        let can_group = compact || is_leaf(g, rel.to);
        let pos = if can_group { find_item_from(before, rel.kind, label, 0) } else { None };
        lemma_find_item_in_range(before, rel.kind, label, 0);
        assert(after == add_item(g, before, rel, mode));
        match pos {
            Some(k0) => {
                assert(after.len() == before.len());
                assert forall|k: int| 0 <= k < after.len() implies after[k].to == before[k].to by {}
            },
            None => {
                assert(after.len() == before.len() + 1);
                assert forall|k: int| 0 <= k < before.len() implies after[k].to == before[k].to by {}
                assert(after[before.len() as int].to == rel.to);
            },
        }
        assert forall|k: int| 0 <= k < after.len() implies exists|j: int|
            0 <= j < rels.len() && rels[j].to == #[trigger] after[k].to by {
            if k < before.len() {
                let j = choose|j: int| 0 <= j < rels.drop_last().len() && rels.drop_last()[j].to == #[trigger] before[k].to;
                assert(rels[j] == rels.drop_last()[j]);
            } else {
                assert(rels[rels.len() - 1].to == after[k].to);
            }
        }
    }
}

/// Each item under `id` goes to the target of a relation that leaves `id`.
proof fn lemma_item_targets(g: GraphView, id: Seq<char>, mode: PlainRenderMode, k: int)
    requires
        0 <= k < render_items_spec(g, id, mode).len(),
    ensures
        exists|j: int|
            0 <= j < g.relations.len() && g.relations[j].from == id && #[trigger] g.relations[j].to
                == render_items_spec(g, id, mode)[k].to,
{
    let rels = outgoing_of(g.relations, id);
    let pred = |r: RelationView| r.from == id;
    lemma_fold_targets(g, rels, mode);
    let folded = items_fold(g, rels, mode);
    assert(render_items_spec(g, id, mode)[k].to == folded[k].to);
    let j = choose|j: int| 0 <= j < rels.len() && rels[j].to == #[trigger] folded[k].to;
    g.relations.lemma_filter_pred(pred, j);
    assert(rels.contains(rels[j]));
    g.relations.lemma_filter_contains_rev(pred, rels[j]);
    assert(g.relations.contains(rels[j]));
    let i = choose|i: int| 0 <= i < g.relations.len() && g.relations[i] == rels[j];
    assert(g.relations[i].from == id && g.relations[i].to == render_items_spec(g, id, mode)[k].to);
}

/// The drawing follows no more than the relations: where every path of
/// relations from `id` is shorter than `n`, so is every path the drawing
/// of `id` follows, in any mode.
pub proof fn law_drawing_follows_relations(g: GraphView, id: Seq<char>, mode: PlainRenderMode, n: nat)
    requires
        bounded(g, id, n),
    ensures
        drawn_bounded(g, id, mode, n),
    decreases n,
{
    assert forall|k: int|
        #![trigger render_items_spec(g, id, mode)[k]]
        0 <= k < render_items_spec(g, id, mode).len() implies drawn_bounded(
            g,
            render_items_spec(g, id, mode)[k].to,
            mode,
            (n - 1) as nat,
        ) by {
        lemma_item_targets(g, id, mode, k);
        let j = choose|j: int|
            0 <= j < g.relations.len() && g.relations[j].from == id && #[trigger] g.relations[j].to
                == render_items_spec(g, id, mode)[k].to;
        assert(bounded(g, g.relations[j].to, (n - 1) as nat));
        law_drawing_follows_relations(g, render_items_spec(g, id, mode)[k].to, mode, (n - 1) as nat);
    }
}

fn item_line_text(item: &RenderItem, prefix: &str, last: bool, color: bool) -> (r: String)
    ensures
        r@ == item_line(item.item_view(), prefix@, last, color),
{
    let mut r = owned(prefix);
    let branch_text = if last {
        "\u{2514}\u{2500}\u{2500}"
    } else {
        "\u{251c}\u{2500}\u{2500}"
    };
    r.append(styled_text(branch_text, "90", color).as_str());
    r.append(" ");
    r.append(item.kind.label());
    r.append(" ");
    r.append(styled_text(item.target_label.as_str(), "97", color).as_str());
    r.append(styled_text(evidence_marker(&item.evidence).as_str(), "90", color).as_str());
    r
}

/// Writes the lines under entity `id`, each indented by `prefix`.
fn render_children(
    graph: &EvidenceGraph,
    id: &EntityId,
    prefix: &str,
    mode: PlainRenderMode,
    color: bool,
    out: &mut Vec<String>,
    fuel: Ghost<nat>,
)
    requires
        drawn_bounded(graph@, id@, mode, fuel@),
        evidence_total(graph@.relations) < i32::MAX,
    ensures
        views(final(out)@) == views(old(out)@) + children_lines(graph@, id@, prefix@, mode, color, fuel@),
    decreases fuel@,
{
    let ghost g = graph@;
    let ghost start = views(out@);
    let items = render_items(graph, id, mode);
    let ghost iv = item_views(items@);
    assert(children_lines(g, id@, prefix@, mode, color, fuel@) == lines_from(g, iv, 0, prefix@, mode, color, fuel@));
    let mut i: usize = 0;
    while i < items.len()
        invariant
            i <= items.len(),
            g == graph@,
            iv == item_views(items@),
            iv == render_items_spec(g, id@, mode),
            drawn_bounded(g, id@, mode, fuel@),
            evidence_total(g.relations) < i32::MAX,
            views(out@) + lines_from(g, iv, i as int, prefix@, mode, color, fuel@) == start + children_lines(
                g,
                id@,
                prefix@,
                mode,
                color,
                fuel@,
            ),
        decreases items.len() - i,
    {
        let last = i + 1 == items.len();
        let item = &items[i];
        assert(iv[i as int] == item.item_view());
        let line = item_line_text(item, prefix, last, color);
        let ghost before = views(out@);
        out.push(line);
        assert(views(out@) =~= before.push(line@));
        let mut child = owned(prefix);
        child.append(if last {
            "    "
        } else {
            "\u{2502}   "
        });
        assert(drawn_bounded(g, iv[i as int].to, mode, (fuel@ - 1) as nat));
        let ghost mid = views(out@);
        render_children(graph, &item.to, child.as_str(), mode, color, out, Ghost((fuel@ - 1) as nat));
        assert(lines_from(g, iv, i as int, prefix@, mode, color, fuel@) == seq![line@] + children_lines(
            g,
            iv[i as int].to,
            child@,
            mode,
            color,
            (fuel@ - 1) as nat,
        ) + lines_from(g, iv, i + 1, prefix@, mode, color, fuel@));
        assert(views(out@) + lines_from(g, iv, i + 1, prefix@, mode, color, fuel@) =~= before + lines_from(
            g,
            iv,
            i as int,
            prefix@,
            mode,
            color,
            fuel@,
        ));
        i += 1;
    }
    assert(lines_from(g, iv, i as int, prefix@, mode, color, fuel@) =~= Seq::<Seq<char>>::empty());
    assert(views(out@) =~= views(out@) + Seq::<Seq<char>>::empty());
}

// ---------------------------------------------------------------------------
// The roots of the tree
// ---------------------------------------------------------------------------

/// The identifiers in order, each kept at its first place only.
pub open spec fn dedup_ids(s: Seq<Seq<char>>) -> Seq<Seq<char>>
    decreases s.len(),
{
    if s.len() == 0 {
        Seq::empty()
    } else {
        let d = dedup_ids(s.drop_last());
        if d.contains(s.last()) {
            d
        } else {
            d.push(s.last())
        }
    }
}

/// Whether no relation arrives at the entity.
pub open spec fn unreferenced(g: GraphView, e: EntityView) -> bool {
    incoming_of(g.relations, e.id).len() == 0
}

/// The identifiers of the entities no relation arrives at, in order.
pub open spec fn unreferenced_ids(g: GraphView) -> Seq<Seq<char>> {
    g.entities.filter(|e: EntityView| unreferenced(g, e)).map_values(|e: EntityView| e.id)
}

/// Where the explanation starts: the matches, or, where there are none,
/// the entities no relation arrives at; each once.
pub open spec fn why_roots(matches: Seq<Seq<char>>, g: GraphView) -> Seq<Seq<char>> {
    if matches.len() > 0 {
        dedup_ids(matches)
    } else {
        dedup_ids(unreferenced_ids(g))
    }
}

fn contains_id(v: &Vec<EntityId>, id: &EntityId) -> (r: bool)
    ensures
        r == id_views(v@).contains(id@),
{
    let ghost iv = id_views(v@);
    let mut k: usize = 0;
    while k < v.len()
        invariant
            k <= v.len(),
            iv == id_views(v@),
            forall|j: int| 0 <= j < k ==> iv[j] != id@,
        decreases v.len() - k,
    {
        assert(iv[k as int] == v@[k as int]@);
        if v[k].same(id) {
            return true;
        }
        k += 1;
    }
    false
}

fn dedup(v: &Vec<EntityId>) -> (r: Vec<EntityId>)
    ensures
        id_views(r@) == dedup_ids(id_views(v@)),
{
    let ghost iv = id_views(v@);
    let mut r: Vec<EntityId> = Vec::new();
    let mut k: usize = 0;
    assert(iv.take(0) =~= Seq::<Seq<char>>::empty());
    assert(id_views(r@) =~= Seq::<Seq<char>>::empty());
    while k < v.len()
        invariant
            k <= v.len(),
            iv == id_views(v@),
            id_views(r@) == dedup_ids(iv.take(k as int)),
        decreases v.len() - k,
    {
        assert(iv.take(k + 1).drop_last() =~= iv.take(k as int));
        assert(iv.take(k + 1).last() == v@[k as int]@);
        if !contains_id(&r, &v[k]) {
            let ghost before = id_views(r@);
            r.push(v[k].duplicate());
            assert(id_views(r@) =~= before.push(v@[k as int]@));
        }
        k += 1;
    }
    assert(iv.take(v.len() as int) =~= iv);
    r
}

fn unreferenced_entities(graph: &EvidenceGraph) -> (r: Vec<EntityId>)
    ensures
        id_views(r@) == unreferenced_ids(graph@),
{
    let ghost g = graph@;
    let ghost pred = |e: EntityView| unreferenced(g, e);
    let mut r: Vec<EntityId> = Vec::new();
    let mut i: usize = 0;
    while i < graph.entity_count()
        invariant
            i <= g.entities.len(),
            g == graph@,
            pred == (|e: EntityView| unreferenced(g, e)),
            id_views(r@) == g.entities.take(i as int).filter(pred).map_values(|e: EntityView| e.id),
        decreases g.entities.len() - i,
    {
        let e = graph.entity_at(i);
        proof {
            reveal_with_fuel(Seq::filter, 1);
            assert(g.entities.take(i + 1).drop_last() =~= g.entities.take(i as int));
        }
        let ghost before = g.entities.take(i as int).filter(pred);
        let incoming = graph.incoming(&e.id);
        assert(incoming@.map_values(|x: &Relation| x@).len() == incoming@.len());
        if incoming.len() == 0 {
            let ghost rv = id_views(r@);
            r.push(e.id.duplicate());
            assert(id_views(r@) =~= rv.push(e@.id));
            assert(g.entities.take(i + 1).filter(pred) == before.push(e@));
            assert(before.push(e@).map_values(|e: EntityView| e.id) =~= before.map_values(|e: EntityView| e.id).push(e@.id));
        } else {
            assert(g.entities.take(i + 1).filter(pred) == before);
        }
        i += 1;
    }
    assert(g.entities.take(i as int) =~= g.entities);
    r
}

/// The entities where the explanation starts.
pub fn why_roots_of(matches: &Vec<EntityId>, graph: &EvidenceGraph) -> (r: Vec<EntityId>)
    ensures
        id_views(r@) == why_roots(id_views(matches@), graph@),
{
    if matches.len() > 0 {
        dedup(matches)
    } else {
        dedup(&unreferenced_entities(graph))
    }
}

/// Whether every path that the drawing of `id` follows has fewer than `n`
/// steps.
fn drawn_bounded_check(graph: &EvidenceGraph, id: &EntityId, mode: PlainRenderMode, n: u128) -> (r: bool)
    requires
        evidence_total(graph@.relations) < i32::MAX,
    ensures
        r == drawn_bounded(graph@, id@, mode, n as nat),
    decreases n,
{
    let ghost g = graph@;
    if n == 0 {
        return false;
    }
    let items = render_items(graph, id, mode);
    let ghost iv = item_views(items@);
    let mut k: usize = 0;
    while k < items.len()
        invariant
            k <= items.len(),
            g == graph@,
            n > 0,
            evidence_total(g.relations) < i32::MAX,
            iv == item_views(items@),
            iv == render_items_spec(g, id@, mode),
            forall|j: int| 0 <= j < k ==> drawn_bounded(g, #[trigger] iv[j].to, mode, (n - 1) as nat),
        decreases items.len() - k,
    {
        assert(iv[k as int] == items@[k as int].item_view());
        if !drawn_bounded_check(graph, &items[k].to, mode, n - 1) {
            assert(!drawn_bounded(g, render_items_spec(g, id@, mode)[k as int].to, mode, (n - 1) as nat));
            return false;
        }
        k += 1;
    }
    assert forall|j: int|
        #![trigger render_items_spec(g, id@, mode)[j]]
        0 <= j < render_items_spec(g, id@, mode).len() implies drawn_bounded(
            g,
            render_items_spec(g, id@, mode)[j].to,
            mode,
            (n - 1) as nat,
        ) by {
        assert(iv[j].to == render_items_spec(g, id@, mode)[j].to);
    }
    true
}

/// Whether the tree under each of `roots` can be drawn in `mode`.
pub fn trees_renderable(graph: &EvidenceGraph, roots: &Vec<EntityId>, mode: PlainRenderMode) -> (r: bool)
    requires
        evidence_total(graph@.relations) < i32::MAX,
    ensures
        r == tree_renderable(graph@, id_views(roots@), mode),
{
    let ghost g = graph@;
    let ghost rv = id_views(roots@);
    let depth: u128 = graph.relation_count() as u128 + 1;
    let mut k: usize = 0;
    while k < roots.len()
        invariant
            k <= roots.len(),
            g == graph@,
            rv == id_views(roots@),
            depth == tree_depth(g),
            evidence_total(g.relations) < i32::MAX,
            forall|i: int|
                0 <= i < k && find_entity(g.entities, #[trigger] rv[i]) is Some ==> drawn_bounded(g, rv[i], mode, tree_depth(g)),
        decreases roots.len() - k,
    {
        assert(rv[k as int] == roots@[k as int]@);
        if graph.entity(&roots[k]).is_some() {
            if !drawn_bounded_check(graph, &roots[k], mode, depth) {
                assert(!drawn_bounded(g, rv[k as int], mode, tree_depth(g)));
                return false;
            }
        }
        k += 1;
    }
    true
}

/// Writes the tree under each of `roots` in turn.
pub fn render_roots(graph: &EvidenceGraph, roots: &Vec<EntityId>, mode: PlainRenderMode, color: bool, out: &mut Vec<String>)
    requires
        tree_renderable(graph@, id_views(roots@), mode),
        evidence_total(graph@.relations) < i32::MAX,
    ensures
        views(final(out)@) == views(old(out)@) + roots_tree(graph@, id_views(roots@), mode, color),
{
    let ghost g = graph@;
    let ghost rv = id_views(roots@);
    let ghost start = views(out@);
    let mut k: usize = 0;
    assert(rv.take(0) =~= Seq::<Seq<char>>::empty());
    while k < roots.len()
        invariant
            k <= roots.len(),
            g == graph@,
            rv == id_views(roots@),
            tree_renderable(g, rv, mode),
            evidence_total(g.relations) < i32::MAX,
            views(out@) == start + roots_tree(g, rv.take(k as int), mode, color),
        decreases roots.len() - k,
    {
        assert(rv[k as int] == roots@[k as int]@);
        assert(rv.take(k + 1).drop_last() =~= rv.take(k as int));
        assert(rv.take(k + 1).last() == rv[k as int]);
        let ghost before = views(out@);
        match graph.entity(&roots[k]) {
            Some(e) => {
                out.push(e.name.clone());
                assert(views(out@) =~= before.push(e@.name));
                assert(drawn_bounded(g, rv[k as int], mode, tree_depth(g)));
                render_children(graph, &roots[k], "", mode, color, out, Ghost(tree_depth(g)));
                proof {
                    reveal_strlit("");
                    assert(""@ =~= Seq::<char>::empty());
                }
                assert(entity_tree(g, rv[k as int], mode, color) == seq![e@.name] + children_lines(
                    g,
                    rv[k as int],
                    Seq::empty(),
                    mode,
                    color,
                    tree_depth(g),
                ));
                assert(views(out@) =~= start + roots_tree(g, rv.take(k + 1), mode, color));
            },
            None => {
                assert(views(out@) =~= start + roots_tree(g, rv.take(k + 1), mode, color));
            },
        }
        k += 1;
    }
    assert(rv.take(roots.len() as int) =~= rv);
}

// ---------------------------------------------------------------------------
// Markers and the evidence section
// ---------------------------------------------------------------------------

proof fn lemma_relation_refs_at(evs: Seq<EvidenceView>, base: nat)
    ensures
        relation_refs(evs, base).len() == evs.len(),
        forall|k: int|
            0 <= k < evs.len() ==> #[trigger] relation_refs(evs, base)[k] == (
                evidence_label((base + k + 1) as nat),
                evs[k].confidence,
            ),
    decreases evs.len(),
{
    if evs.len() > 0 {
        lemma_relation_refs_at(evs.drop_last(), base);
        let r = relation_refs(evs, base);
        assert forall|k: int| 0 <= k < evs.len() implies #[trigger] r[k] == (
            evidence_label((base + k + 1) as nat),
            evs[k].confidence,
        ) by {
            if k < evs.len() - 1 {
                assert(r[k] == relation_refs(evs.drop_last(), base)[k]);
                assert(evs.drop_last()[k] == evs[k]);
            }
        }
    }
}

proof fn lemma_refs_in_prefix(rels: Seq<RelationView>, j: int, n: int)
    requires
        0 <= j < rels.len(),
        0 <= n <= rels.len(),
        edges_unique(rels),
    ensures
        refs_in(rels.take(n), rels[j]) == if n <= j {
            Seq::<(Seq<char>, Confidence)>::empty()
        } else {
            relation_refs(rels[j].evidence, evidence_total(rels.take(j)))
        },
    decreases n,
{
    if n > 0 {
        lemma_refs_in_prefix(rels, j, n - 1);
        let t = rels.take(n);
        assert(t.drop_last() =~= rels.take(n - 1));
        assert(t.last() == rels[n - 1]);
        if n - 1 == j {
            assert(same_edge(rels[j], rels[j]));
        } else {
            assert(!same_edge(rels[n - 1], rels[j]));
        }
    }
}

/// In a graph whose relations have unique edges, the marker of a relation
/// cites exactly that relation's evidence, under the numbers the evidence
/// section gives it: its `k`-th piece is `e<n + k + 1>`, where `n` counts
/// the pieces of evidence of the relations before it.
pub proof fn law_markers_cite_the_evidence_section(rels: Seq<RelationView>, j: int)
    requires
        0 <= j < rels.len(),
        edges_unique(rels),
    ensures
        refs_in(rels, rels[j]) == relation_refs(rels[j].evidence, evidence_total(rels.take(j))),
        refs_in(rels, rels[j]).len() == rels[j].evidence.len(),
        forall|k: int|
            0 <= k < rels[j].evidence.len() ==> #[trigger] refs_in(rels, rels[j])[k] == (
                evidence_label((evidence_total(rels.take(j)) + k + 1) as nat),
                rels[j].evidence[k].confidence,
            ),
{
    lemma_refs_in_prefix(rels, j, rels.len() as int);
    assert(rels.take(rels.len() as int) =~= rels);
    lemma_relation_refs_at(rels[j].evidence, evidence_total(rels.take(j)));
}

} // verus!
