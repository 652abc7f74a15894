use vstd::prelude::*;
use crate::backend::{state_display, BackendStatusView};
use crate::cli::tree::{
    evidence_label, evidence_total, law_markers_cite_the_evidence_section, lemma_evidence_total_take, name_or_id,
    name_or_id_text, refs_in, render_roots, roots_tree, tree_renderable, trees_renderable, why_roots, why_roots_of,
};
use crate::domain::graph_laws::edges_unique;
use crate::domain::evidence::Evidence;
use crate::domain::graph::EvidenceGraph;
use crate::domain::number::push_decimal;
use crate::domain::relation::evidence_views;
use crate::domain::confidence::confidence_name;
use crate::domain::entity::{entity_kind_name, EntityView};
use crate::domain::evidence::EvidenceView;
use crate::domain::graph::{find_entity, GraphView};
use crate::domain::number::decimal;
use crate::domain::query::{query_interpretation, query_kind, query_value};
use crate::domain::relation::{relation_kind_label, relation_kind_name, RelationKind, RelationView};
use crate::domain::scan::views;
use crate::domain::text::{owned, push_char};
use crate::engine::Investigation;
use crate::engine::InvestigationView;
use vstd::utf8::encode_utf8;

verus! {

/// How much of an investigation the plain output shows.
#[derive(Debug, Clone, Copy, PartialEq, Eq, Structural)]
pub enum PlainRenderMode {
    Compact,
    Evidence,
    Full,
    Debug,
}

/// Whether the mode folds low-signal systemd dependencies into one line.
pub open spec fn simplifies_graph(m: PlainRenderMode) -> bool {
    m == PlainRenderMode::Compact || m == PlainRenderMode::Evidence
}

/// Whether the mode lists the evidence.
pub open spec fn includes_evidence(m: PlainRenderMode) -> bool {
    m == PlainRenderMode::Evidence || m == PlainRenderMode::Full || m == PlainRenderMode::Debug
}

/// Whether the mode lists every entity and relation.
pub open spec fn includes_full_graph(m: PlainRenderMode) -> bool {
    m == PlainRenderMode::Full || m == PlainRenderMode::Debug
}

/// Whether the mode adds the counts for debugging.
pub open spec fn includes_debug(m: PlainRenderMode) -> bool {
    m == PlainRenderMode::Debug
}

/// `text` in the ANSI style `code` where color is on.
pub open spec fn styled(text: Seq<char>, code: Seq<char>, color: bool) -> Seq<char> {
    if color {
        "\x1b["@ + code + "m"@ + text + "\x1b[0m"@
    } else {
        text
    }
}

pub fn styled_text(text: &str, code: &str, color: bool) -> (r: String)
    ensures
        r@ == styled(text@, code@, color),
{
    if color {
        let mut r = owned("\x1b[");
        r.append(code);
        r.append("m");
        r.append(text);
        r.append("\x1b[0m");
        r
    } else {
        owned(text)
    }
}

// ---------------------------------------------------------------------------
// Lines and sections
// ---------------------------------------------------------------------------

/// The text of the lines, each ended by a newline.
pub open spec fn concat_lines(lines: Seq<Seq<char>>) -> Seq<char>
    decreases lines.len(),
{
    if lines.len() == 0 {
        Seq::empty()
    } else {
        concat_lines(lines.drop_last()) + lines.last() + "\n"@
    }
}

/// The lines that open a section after the first: an empty line and the
/// title.
pub open spec fn section(title: Seq<char>, color: bool) -> Seq<Seq<char>> {
    seq![Seq::empty(), styled(title, "92"@, color)]
}

/// `s` padded with spaces to `width` characters, as `{:<width}` writes it.
pub open spec fn pad_right(s: Seq<char>, width: nat) -> Seq<char> {
    if s.len() >= width {
        s
    } else {
        s + Seq::new((width - s.len()) as nat, |i: int| ' ')
    }
}

/// The lines of the query section.
pub open spec fn query_lines(inv: InvestigationView, color: bool) -> Seq<Seq<char>> {
    seq![
        styled("Query"@, "92"@, color),
        "  "@ + query_value(inv.query),
        "  interpreted as "@ + query_interpretation(inv.query),
    ]
}

/// The lines of the answer section.
pub open spec fn answer_lines(inv: InvestigationView, color: bool) -> Seq<Seq<char>> {
    section("Answer"@, color) + seq!["  "@ + inv.answer]
}

/// The line of the `i`-th match: a marker on the first, then the kind and
/// name of the entity, or the identifier where the graph has no such
/// entity.
pub open spec fn match_line(g: GraphView, i: int, id: Seq<char>, color: bool) -> Seq<char> {
    let marker = if i == 0 { styled(">"@, "36"@, color) } else { " "@ };
    match find_entity(g.entities, id) {
        Some(e) => "  "@ + marker + " "@ + pad_right(entity_kind_name(e.kind), 11) + " "@ + e.name,
        None => "  "@ + marker + " "@ + id,
    }
}

/// The lines of the matches section, where there are matches.
pub open spec fn match_lines(inv: InvestigationView, color: bool) -> Seq<Seq<char>> {
    if inv.matches.len() == 0 {
        Seq::empty()
    } else {
        section("Matches"@, color) + Seq::new(inv.matches.len(), |i: int| match_line(inv.graph, i, inv.matches[i], color))
    }
}

/// Whether the graph has neither entity nor relation.
pub open spec fn graph_empty(g: GraphView) -> bool {
    g.entities.len() == 0 && g.relations.len() == 0
}

/// The lines of the section that explains why, where the graph is not
/// empty.
pub open spec fn why_lines(inv: InvestigationView, mode: PlainRenderMode, color: bool) -> Seq<Seq<char>> {
    if graph_empty(inv.graph) {
        Seq::empty()
    } else {
        section("Main chain"@, color) + roots_tree(inv.graph, why_roots(inv.matches, inv.graph), mode, color)
    }
}

/// The lines that describe one piece of evidence of a relation.
pub open spec fn entry_lines(label: Seq<char>, from: Seq<char>, kind: RelationKind, to: Seq<char>, ev: EvidenceView) -> Seq<Seq<char>> {
    seq![
        "  ["@ + label + "]"@,
        "    Relation: "@ + from + " --"@ + relation_kind_label(kind) + "--> "@ + to,
        "    Backend: "@ + ev.backend,
        "    Source: "@ + ev.source,
        "    Confidence: "@ + confidence_name(ev.confidence),
    ] + if ev.description.len() > 0 {
        seq!["    Description: "@ + ev.description]
    } else {
        Seq::empty()
    }
}

/// The lines for the pieces of evidence `evs` of relation `rel`, the first
/// numbered `base + 1`.
pub open spec fn relation_entries(g: GraphView, rel: RelationView, evs: Seq<EvidenceView>, base: nat) -> Seq<Seq<char>>
    decreases evs.len(),
{
    if evs.len() == 0 {
        Seq::empty()
    } else {
        relation_entries(g, rel, evs.drop_last(), base) + entry_lines(
            evidence_label(base + evs.len()),
            name_or_id(g, rel.from),
            rel.kind,
            name_or_id(g, rel.to),
            evs.last(),
        )
    }
}

/// The lines for all the evidence of the relations, numbered in order.
pub open spec fn evidence_entries(g: GraphView, rels: Seq<RelationView>) -> Seq<Seq<char>>
    decreases rels.len(),
{
    if rels.len() == 0 {
        Seq::empty()
    } else {
        evidence_entries(g, rels.drop_last()) + relation_entries(
            g,
            rels.last(),
            rels.last().evidence,
            evidence_total(rels.drop_last()),
        )
    }
}

/// The lines of the evidence section, where the mode lists evidence and
/// there is some.
pub open spec fn evidence_lines(inv: InvestigationView, mode: PlainRenderMode, color: bool) -> Seq<Seq<char>> {
    if includes_evidence(mode) && evidence_total(inv.graph.relations) > 0 {
        section("Evidence"@, color) + evidence_entries(inv.graph, inv.graph.relations)
    } else {
        Seq::empty()
    }
}

/// The line of a metadata entry.
pub open spec fn metadata_line(kv: (Seq<char>, Seq<char>)) -> Seq<char> {
    "      "@ + kv.0 + ": "@ + kv.1
}

/// The lines of an entity: its identifier, kind and name, then its
/// metadata.
pub open spec fn entity_detail(e: EntityView) -> Seq<Seq<char>> {
    seq!["    "@ + e.id + " | "@ + entity_kind_name(e.kind) + " | "@ + e.name] + e.metadata.map_values(
        |kv: (Seq<char>, Seq<char>)| metadata_line(kv),
    )
}

/// The lines of each entity in turn.
pub open spec fn entity_details(es: Seq<EntityView>) -> Seq<Seq<char>>
    decreases es.len(),
{
    if es.len() == 0 {
        Seq::empty()
    } else {
        entity_details(es.drop_last()) + entity_detail(es.last())
    }
}

/// The line of a relation.
pub open spec fn relation_detail(r: RelationView) -> Seq<char> {
    "    "@ + r.from + " --"@ + relation_kind_name(r.kind) + "--> "@ + r.to + " | "@ + confidence_name(r.confidence)
}

/// The lines of the graph section, where the mode lists the whole graph
/// and it is not empty.
pub open spec fn graph_lines(inv: InvestigationView, mode: PlainRenderMode, color: bool) -> Seq<Seq<char>> {
    if includes_full_graph(mode) && !graph_empty(inv.graph) {
        section("Graph"@, color) + seq!["  Entities:"@] + entity_details(inv.graph.entities) + seq!["  Relations:"@]
            + inv.graph.relations.map_values(|r: RelationView| relation_detail(r))
    } else {
        Seq::empty()
    }
}

/// The lines of the incomplete section, where there are gaps.
pub open spec fn incomplete_lines(inv: InvestigationView, color: bool) -> Seq<Seq<char>> {
    if inv.incomplete.len() == 0 {
        Seq::empty()
    } else {
        section("Incomplete"@, color) + inv.incomplete.map_values(|m: Seq<char>| "  "@ + m)
    }
}

/// The number of bytes `str::len` gives for a string.
pub open spec fn byte_len(s: Seq<char>) -> nat {
    (encode_utf8(s).len() as usize) as nat
}

/// The largest byte length of the backend names, zero where there is none.
pub open spec fn name_width(sts: Seq<BackendStatusView>) -> nat
    decreases sts.len(),
{
    if sts.len() == 0 {
        0
    } else {
        let w = name_width(sts.drop_last());
        if byte_len(sts.last().backend) > w {
            byte_len(sts.last().backend)
        } else {
            w
        }
    }
}

/// The line of a backend status, its name padded to `width`.
pub open spec fn status_line(st: BackendStatusView, width: nat) -> Seq<char> {
    "  "@ + pad_right(st.backend, width) + " "@ + state_display(st.state)
}

/// The lines of the backends section, where there are statuses.
pub open spec fn backend_lines(inv: InvestigationView, color: bool) -> Seq<Seq<char>> {
    if inv.backend_status.len() == 0 {
        Seq::empty()
    } else {
        section("Backend status"@, color) + inv.backend_status.map_values(
            |st: BackendStatusView| status_line(st, name_width(inv.backend_status)),
        )
    }
}

/// The lines of the debug section, where the mode asks for it.
pub open spec fn debug_lines(inv: InvestigationView, mode: PlainRenderMode, color: bool) -> Seq<Seq<char>> {
    if includes_debug(mode) {
        section("Debug"@, color) + seq![
            "  Query kind: "@ + query_kind(inv.query),
            "  Entity count: "@ + decimal(inv.graph.entities.len()),
            "  Relation count: "@ + decimal(inv.graph.relations.len()),
            "  Match count: "@ + decimal(inv.matches.len()),
            "  Incomplete count: "@ + decimal(inv.incomplete.len()),
        ]
    } else {
        Seq::empty()
    }
}

/// The lines of the plain output, section by section in a fixed order.
pub open spec fn plain_lines(inv: InvestigationView, mode: PlainRenderMode, color: bool) -> Seq<Seq<char>> {
    query_lines(inv, color) + answer_lines(inv, color) + match_lines(inv, color) + why_lines(inv, mode, color)
        + evidence_lines(inv, mode, color) + graph_lines(inv, mode, color) + incomplete_lines(inv, color)
        + backend_lines(inv, color) + debug_lines(inv, mode, color)
}

/// The plain output of an investigation.
pub open spec fn plain_text(inv: InvestigationView, mode: PlainRenderMode, color: bool) -> Seq<char> {
    concat_lines(plain_lines(inv, mode, color))
}

/// Whether the plain output in `mode` can be written: the pieces of
/// evidence can be numbered `e1`, `e2`, ... by a counter of type `i32`,
/// which would overflow past `i32::MAX` pieces, and the paths that the
/// drawing of the trees follows in `mode` hold no cycle (one would be drawn
/// without end).
pub open spec fn plain_renderable(inv: InvestigationView, mode: PlainRenderMode) -> bool {
    &&& evidence_total(inv.graph.relations) < i32::MAX
    &&& tree_renderable(inv.graph, why_roots(inv.matches, inv.graph), mode)
}

// ---------------------------------------------------------------------------
// Writing the sections
// ---------------------------------------------------------------------------

fn push_line(out: &mut Vec<String>, line: String)
    ensures
        views(final(out)@) == views(old(out)@).push(line@),
{
    let ghost before = views(out@);
    out.push(line);
    assert(views(out@) =~= before.push(line@));
}

fn push_section(out: &mut Vec<String>, title: &str, color: bool)
    ensures
        views(final(out)@) == views(old(out)@) + section(title@, color),
{
    let ghost before = views(out@);
    push_line(out, String::new());
    push_line(out, styled_text(title, "92", color));
    assert(views(out@) =~= before + section(title@, color));
}

/// `s` followed by `t`.
fn joined(s: &str, t: &str) -> (r: String)
    ensures
        r@ == s@ + t@,
{
    let mut r = owned(s);
    r.append(t);
    r
}

fn pad_right_text(s: &str, width: usize) -> (r: String)
    ensures
        r@ == pad_right(s@, width as nat),
{
    let n = s.unicode_len();
    let mut r = owned(s);
    if n >= width {
        return r;
    }
    let mut k: usize = n;
    while k < width
        invariant
            n <= k <= width,
            n == s@.len(),
            r@ == s@ + Seq::new((k - n) as nat, |i: int| ' '),
        decreases width - k,
    {
        let ghost before = r@;
        push_char(&mut r, ' ');
        assert(r@ =~= s@ + Seq::new((k + 1 - n) as nat, |i: int| ' '));
        k += 1;
    }
    r
}

/// The text of the lines, each ended by a newline.
fn concat_text(lines: &Vec<String>) -> (r: String)
    ensures
        r@ == concat_lines(views(lines@)),
{
    let ghost lv = views(lines@);
    let mut r = String::new();
    let mut i: usize = 0;
    assert(lv.take(0) =~= Seq::<Seq<char>>::empty());
    while i < lines.len()
        invariant
            i <= lines.len(),
            lv == views(lines@),
            r@ == concat_lines(lv.take(i as int)),
        decreases lines.len() - i,
    {
        assert(lv.take(i + 1).drop_last() =~= lv.take(i as int));
        assert(lv.take(i + 1).last() == lines@[i as int]@);
        r.append(lines[i].as_str());
        r.append("\n");
        i += 1;
    }
    assert(lv.take(lines.len() as int) =~= lv);
    r
}

fn render_query(inv: &Investigation, color: bool, out: &mut Vec<String>)
    ensures
        views(final(out)@) == views(old(out)@) + query_lines(inv@, color) + answer_lines(inv@, color),
{
    let ghost before = views(out@);
    push_line(out, styled_text("Query", "92", color));
    push_line(out, joined("  ", inv.query.value().as_str()));
    push_line(out, joined("  interpreted as ", inv.query.interpreted_as()));
    push_section(out, "Answer", color);
    push_line(out, joined("  ", inv.answer.as_str()));
    assert(views(out@) =~= before + query_lines(inv@, color) + answer_lines(inv@, color));
}

fn render_matches(inv: &Investigation, color: bool, out: &mut Vec<String>)
    ensures
        views(final(out)@) == views(old(out)@) + match_lines(inv@, color),
{
    let ghost start = views(out@);
    let ghost iv = inv@;
    if inv.matches.len() == 0 {
        assert(views(out@) =~= start + match_lines(iv, color));
        return;
    }
    push_section(out, "Matches", color);
    let ghost opened = views(out@);
    let mut i: usize = 0;
    while i < inv.matches.len()
        invariant
            i <= inv.matches.len(),
            iv == inv@,
            views(out@) == opened + Seq::new(i as nat, |k: int| match_line(iv.graph, k, iv.matches[k], color)),
        decreases inv.matches.len() - i,
    {
        let id = &inv.matches[i];
        assert(iv.matches[i as int] == id@);
        let marker = if i == 0 {
            styled_text(">", "36", color)
        } else {
            owned(" ")
        };
        let mut line = joined("  ", marker.as_str());
        line.append(" ");
        match inv.graph.entity(id) {
            Some(entity) => {
                line.append(pad_right_text(entity.kind.as_str(), 11).as_str());
                line.append(" ");
                line.append(entity.name.as_str());
            },
            None => {
                line.append(id.as_str());
            },
        }
        assert(line@ == match_line(iv.graph, i as int, iv.matches[i as int], color));
        let ghost before = views(out@);
        push_line(out, line);
        assert(views(out@) =~= opened + Seq::new((i + 1) as nat, |k: int| match_line(iv.graph, k, iv.matches[k], color)));
        i += 1;
    }
    assert(views(out@) =~= start + match_lines(iv, color));
}

proof fn lemma_relation_entries_empty(g: GraphView, rel: RelationView, evs: Seq<EvidenceView>, base: nat)
    ensures
        (relation_entries(g, rel, evs, base).len() == 0) == (evs.len() == 0),
    decreases evs.len(),
{
    if evs.len() > 0 {
        lemma_relation_entries_empty(g, rel, evs.drop_last(), base);
    }
}

proof fn lemma_evidence_entries_empty(g: GraphView, rels: Seq<RelationView>)
    ensures
        (evidence_entries(g, rels).len() == 0) == (evidence_total(rels) == 0),
    decreases rels.len(),
{
    if rels.len() > 0 {
        lemma_evidence_entries_empty(g, rels.drop_last());
        lemma_relation_entries_empty(g, rels.last(), rels.last().evidence, evidence_total(rels.drop_last()));
    }
}

fn push_entry(out: &mut Vec<String>, label: String, from: &str, kind: RelationKind, to: &str, ev: &Evidence)
    ensures
        views(final(out)@) == views(old(out)@) + entry_lines(label@, from@, kind, to@, ev@),
{
    let ghost before = views(out@);
    let mut l1 = owned("  [");
    l1.append(label.as_str());
    l1.append("]");
    push_line(out, l1);
    let mut l2 = owned("    Relation: ");
    l2.append(from);
    l2.append(" --");
    l2.append(kind.label());
    l2.append("--> ");
    l2.append(to);
    push_line(out, l2);
    push_line(out, joined("    Backend: ", ev.backend.as_str()));
    push_line(out, joined("    Source: ", ev.source.as_str()));
    push_line(out, joined("    Confidence: ", ev.confidence.as_str()));
    if ev.description.as_str().unicode_len() > 0 {
        push_line(out, joined("    Description: ", ev.description.as_str()));
    }
    assert(views(out@) =~= before + entry_lines(label@, from@, kind, to@, ev@));
}

/// Writes the lines for all the evidence of the graph.
fn collect_evidence(graph: &EvidenceGraph, out: &mut Vec<String>)
    requires
        evidence_total(graph@.relations) < i32::MAX,
    ensures
        views(final(out)@) == views(old(out)@) + evidence_entries(graph@, graph@.relations),
{
    let ghost g = graph@;
    let ghost rels = g.relations;
    let ghost start = views(out@);
    let mut index: u64 = 1;
    let mut j: usize = 0;
    assert(rels.take(0) =~= Seq::<RelationView>::empty());
    while j < graph.relation_count()
        invariant
            j <= rels.len(),
            g == graph@,
            rels == g.relations,
            evidence_total(rels) < i32::MAX,
            index == 1 + evidence_total(rels.take(j as int)),
            views(out@) == start + evidence_entries(g, rels.take(j as int)),
        decreases rels.len() - j,
    {
        let relation = graph.relation_at(j);
        let from = name_or_id_text(graph, &relation.from);
        let to = name_or_id_text(graph, &relation.to);
        let ghost base = evidence_total(rels.take(j as int));
        let ghost evs = relation@.evidence;
        let ghost mid = views(out@);
        proof {
            lemma_evidence_total_take(rels, j as int);
            assert(rels.take(j + 1).drop_last() =~= rels.take(j as int));
            assert(rels.take(j + 1).last() == relation@);
        }
        let mut k: usize = 0;
        assert(evs.take(0) =~= Seq::<EvidenceView>::empty());
        while k < relation.evidence.len()
            invariant
                k <= relation.evidence.len(),
                evs == evidence_views(relation.evidence@),
                index == 1 + base + k,
                base + evs.len() <= evidence_total(rels),
                evidence_total(rels) < i32::MAX,
                from@ == name_or_id(g, relation@.from),
                to@ == name_or_id(g, relation@.to),
                views(out@) == mid + relation_entries(g, relation@, evs.take(k as int), base),
            decreases relation.evidence.len() - k,
        {
            let mut label = owned("e");
            push_decimal(&mut label, index);
            assert(evs.take(k + 1).drop_last() =~= evs.take(k as int));
            assert(evs.take(k + 1).last() == relation.evidence@[k as int]@);
            let ghost before = views(out@);
            push_entry(out, label, from.as_str(), relation.kind, to.as_str(), &relation.evidence[k]);
            assert(views(out@) =~= mid + relation_entries(g, relation@, evs.take(k + 1), base));
            index += 1;
            k += 1;
        }
        assert(evs.take(k as int) =~= evs);
        assert(views(out@) =~= start + evidence_entries(g, rels.take(j + 1)));
        j += 1;
    }
    assert(rels.take(j as int) =~= rels);
}

fn render_evidence(inv: &Investigation, mode: PlainRenderMode, color: bool, out: &mut Vec<String>)
    requires
        evidence_total(inv@.graph.relations) < i32::MAX,
    ensures
        views(final(out)@) == views(old(out)@) + evidence_lines(inv@, mode, color),
{
    let ghost start = views(out@);
    let shown = match mode {
        PlainRenderMode::Compact => false,
        _ => true,
    };
    if !shown {
        assert(views(out@) =~= start + evidence_lines(inv@, mode, color));
        return;
    }
    let mut entries: Vec<String> = Vec::new();
    collect_evidence(&inv.graph, &mut entries);
    assert(views(entries@) =~= Seq::<Seq<char>>::empty() + evidence_entries(inv@.graph, inv@.graph.relations));
    proof {
        lemma_evidence_entries_empty(inv@.graph, inv@.graph.relations);
    }
    if entries.len() == 0 {
        assert(views(out@) =~= start + evidence_lines(inv@, mode, color));
        return;
    }
    push_section(out, "Evidence", color);
    let mut i: usize = 0;
    let ghost opened = views(out@);
    while i < entries.len()
        invariant
            i <= entries.len(),
            views(out@) == opened + views(entries@).take(i as int),
        decreases entries.len() - i,
    {
        let ghost before = views(out@);
        push_line(out, entries[i].clone());
        assert(views(entries@).take(i + 1) =~= views(entries@).take(i as int).push(entries@[i as int]@));
        i += 1;
    }
    assert(views(entries@).take(i as int) =~= views(entries@));
    assert(views(out@) =~= start + evidence_lines(inv@, mode, color));
}

fn render_graph_details(inv: &Investigation, mode: PlainRenderMode, color: bool, out: &mut Vec<String>)
    ensures
        views(final(out)@) == views(old(out)@) + graph_lines(inv@, mode, color),
{
    let ghost start = views(out@);
    let ghost g = inv@.graph;
    let shown = match mode {
        PlainRenderMode::Full | PlainRenderMode::Debug => true,
        _ => false,
    };
    if !shown || inv.graph.is_empty() {
        assert(views(out@) =~= start + graph_lines(inv@, mode, color));
        return;
    }
    push_section(out, "Graph", color);
    push_line(out, owned("  Entities:"));
    let ghost opened = views(out@);
    let mut i: usize = 0;
    assert(g.entities.take(0) =~= Seq::<EntityView>::empty());
    while i < inv.graph.entity_count()
        invariant
            i <= g.entities.len(),
            g == inv@.graph,
            views(out@) == opened + entity_details(g.entities.take(i as int)),
        decreases g.entities.len() - i,
    {
        let entity = inv.graph.entity_at(i);
        let mut line = joined("    ", entity.id.as_str());
        line.append(" | ");
        line.append(entity.kind.as_str());
        line.append(" | ");
        line.append(entity.name.as_str());
        let ghost mid = views(out@);
        push_line(out, line);
        let ghost md = entity@.metadata;
        let mut k: usize = 0;
        while k < entity.metadata.len()
            invariant
                k <= md.len(),
                md == entity@.metadata,
                views(out@) == mid.push(line@) + md.take(k as int).map_values(|kv: (Seq<char>, Seq<char>)| metadata_line(kv)),
            decreases md.len() - k,
        {
            let (key, value) = entity.metadata.entry(k);
            let mut l = joined("      ", key.as_str());
            l.append(": ");
            l.append(value.as_str());
            push_line(out, l);
            assert(md.take(k + 1) =~= md.take(k as int).push(md[k as int]));
            assert(views(out@) =~= mid.push(line@) + md.take(k + 1).map_values(|kv: (Seq<char>, Seq<char>)| metadata_line(kv)));
            k += 1;
        }
        assert(md.take(k as int) =~= md);
        assert(g.entities.take(i + 1).drop_last() =~= g.entities.take(i as int));
        assert(g.entities.take(i + 1).last() == entity@);
        assert(views(out@) =~= opened + entity_details(g.entities.take(i + 1)));
        i += 1;
    }
    assert(g.entities.take(i as int) =~= g.entities);
    push_line(out, owned("  Relations:"));
    let ghost listed = views(out@);
    let mut j: usize = 0;
    while j < inv.graph.relation_count()
        invariant
            j <= g.relations.len(),
            g == inv@.graph,
            views(out@) == listed + g.relations.take(j as int).map_values(|r: RelationView| relation_detail(r)),
        decreases g.relations.len() - j,
    {
        let relation = inv.graph.relation_at(j);
        let mut line = joined("    ", relation.from.as_str());
        line.append(" --");
        line.append(relation.kind.as_str());
        line.append("--> ");
        line.append(relation.to.as_str());
        line.append(" | ");
        line.append(relation.confidence.as_str());
        push_line(out, line);
        assert(g.relations.take(j + 1) =~= g.relations.take(j as int).push(g.relations[j as int]));
        assert(views(out@) =~= listed + g.relations.take(j + 1).map_values(|r: RelationView| relation_detail(r)));
        j += 1;
    }
    assert(g.relations.take(j as int) =~= g.relations);
    assert(views(out@) =~= start + graph_lines(inv@, mode, color));
}

fn render_incomplete(inv: &Investigation, color: bool, out: &mut Vec<String>)
    ensures
        views(final(out)@) == views(old(out)@) + incomplete_lines(inv@, color),
{
    let ghost start = views(out@);
    let ghost iv = inv@;
    if inv.incomplete.len() == 0 {
        assert(views(out@) =~= start + incomplete_lines(iv, color));
        return;
    }
    push_section(out, "Incomplete", color);
    let ghost opened = views(out@);
    let mut i: usize = 0;
    while i < inv.incomplete.len()
        invariant
            i <= inv.incomplete.len(),
            iv == inv@,
            views(out@) == opened + iv.incomplete.take(i as int).map_values(|m: Seq<char>| "  "@ + m),
        decreases inv.incomplete.len() - i,
    {
        push_line(out, joined("  ", inv.incomplete[i].as_str()));
        assert(iv.incomplete[i as int] == inv.incomplete@[i as int]@);
        assert(iv.incomplete.take(i + 1) =~= iv.incomplete.take(i as int).push(iv.incomplete[i as int]));
        assert(views(out@) =~= opened + iv.incomplete.take(i + 1).map_values(|m: Seq<char>| "  "@ + m));
        i += 1;
    }
    assert(iv.incomplete.take(i as int) =~= iv.incomplete);
    assert(views(out@) =~= start + incomplete_lines(iv, color));
}

fn render_backends(inv: &Investigation, color: bool, out: &mut Vec<String>)
    ensures
        views(final(out)@) == views(old(out)@) + backend_lines(inv@, color),
{
    let ghost start = views(out@);
    let ghost iv = inv@;
    let ghost sts = iv.backend_status;
    if inv.backend_status.len() == 0 {
        assert(views(out@) =~= start + backend_lines(iv, color));
        return;
    }
    push_section(out, "Backend status", color);
    let mut width: usize = 0;
    let mut i: usize = 0;
    assert(sts.take(0) =~= Seq::<BackendStatusView>::empty());
    while i < inv.backend_status.len()
        invariant
            i <= inv.backend_status.len(),
            iv == inv@,
            sts == iv.backend_status,
            width == name_width(sts.take(i as int)),
        decreases inv.backend_status.len() - i,
    {
        let n = inv.backend_status[i].backend.as_str().len();
        assert(sts.take(i + 1).drop_last() =~= sts.take(i as int));
        assert(sts.take(i + 1).last() == inv.backend_status@[i as int]@);
        if n > width {
            width = n;
        }
        i += 1;
    }
    assert(sts.take(i as int) =~= sts);
    let ghost opened = views(out@);
    let mut i: usize = 0;
    while i < inv.backend_status.len()
        invariant
            i <= inv.backend_status.len(),
            iv == inv@,
            sts == iv.backend_status,
            width == name_width(sts),
            views(out@) == opened + sts.take(i as int).map_values(|st: BackendStatusView| status_line(st, name_width(sts))),
        decreases inv.backend_status.len() - i,
    {
        let status = &inv.backend_status[i];
        let mut line = joined("  ", pad_right_text(status.backend.as_str(), width).as_str());
        line.append(" ");
        line.append(status.state.as_display());
        push_line(out, line);
        assert(sts[i as int] == status@);
        assert(sts.take(i + 1) =~= sts.take(i as int).push(sts[i as int]));
        assert(views(out@) =~= opened + sts.take(i + 1).map_values(|st: BackendStatusView| status_line(st, name_width(sts))));
        i += 1;
    }
    assert(sts.take(i as int) =~= sts);
    assert(views(out@) =~= start + backend_lines(iv, color));
}

fn render_debug(inv: &Investigation, mode: PlainRenderMode, color: bool, out: &mut Vec<String>)
    ensures
        views(final(out)@) == views(old(out)@) + debug_lines(inv@, mode, color),
{
    let ghost start = views(out@);
    match mode {
        PlainRenderMode::Debug => {},
        _ => {
            assert(views(out@) =~= start + debug_lines(inv@, mode, color));
            return;
        },
    }
    push_section(out, "Debug", color);
    push_line(out, joined("  Query kind: ", inv.query.kind()));
    let mut l = owned("  Entity count: ");
    push_decimal(&mut l, inv.graph.entity_count() as u64);
    push_line(out, l);
    let mut l = owned("  Relation count: ");
    push_decimal(&mut l, inv.graph.relation_count() as u64);
    push_line(out, l);
    let mut l = owned("  Match count: ");
    push_decimal(&mut l, inv.matches.len() as u64);
    push_line(out, l);
    let mut l = owned("  Incomplete count: ");
    push_decimal(&mut l, inv.incomplete.len() as u64);
    push_line(out, l);
    assert(views(out@) =~= start + debug_lines(inv@, mode, color));
}

/// Writes an investigation as plain text, with ANSI colors where `color`
/// is on.
pub fn render_with_color(investigation: &Investigation, mode: PlainRenderMode, color: bool) -> (r: String)
    requires
        plain_renderable(investigation@, mode),
    ensures
        r@ == plain_text(investigation@, mode, color),
{
    let ghost inv = investigation@;
    let mut lines: Vec<String> = Vec::new();
    render_query(investigation, color, &mut lines);
    render_matches(investigation, color, &mut lines);
    let ghost before_why = views(lines@);
    if !investigation.graph.is_empty() {
        push_section(&mut lines, "Main chain", color);
        let roots = why_roots_of(&investigation.matches, &investigation.graph);
        render_roots(&investigation.graph, &roots, mode, color, &mut lines);
    }
    assert(views(lines@) =~= before_why + why_lines(inv, mode, color));
    render_evidence(investigation, mode, color, &mut lines);
    render_graph_details(investigation, mode, color, &mut lines);
    render_incomplete(investigation, color, &mut lines);
    render_backends(investigation, color, &mut lines);
    render_debug(investigation, mode, color, &mut lines);
    assert(views(lines@) =~= plain_lines(inv, mode, color));
    concat_text(&lines)
}

/// Writes an investigation as plain text without colors.
pub fn render(investigation: &Investigation, mode: PlainRenderMode) -> (r: String)
    requires
        plain_renderable(investigation@, mode),
    ensures
        r@ == plain_text(investigation@, mode, false),
{
    render_with_color(investigation, mode, false)
}

/// Whether an investigation can be written as plain text in `mode`.
pub fn is_renderable(investigation: &Investigation, mode: PlainRenderMode) -> (r: bool)
    ensures
        r == plain_renderable(investigation@, mode),
{
    let mut total: u64 = 0;
    let ghost rels = investigation@.graph.relations;
    let mut j: usize = 0;
    assert(rels.take(0) =~= Seq::<RelationView>::empty());
    while j < investigation.graph.relation_count()
        invariant
            j <= rels.len(),
            rels == investigation@.graph.relations,
            total == evidence_total(rels.take(j as int)),
            total < i32::MAX,
        decreases rels.len() - j,
    {
        let n = investigation.graph.relation_at(j).evidence.len();
        proof {
            lemma_evidence_total_take(rels, j as int);
        }
        if n as u64 >= i32::MAX as u64 - total {
            proof {
                lemma_total_grows(rels, j + 1);
            }
            return false;
        }
        total = total + n as u64;
        j += 1;
    }
    assert(rels.take(j as int) =~= rels);
    let roots = why_roots_of(&investigation.matches, &investigation.graph);
    trees_renderable(&investigation.graph, &roots, mode)
}

/// The evidence total of a prefix is at most that of the whole.
proof fn lemma_total_grows(rels: Seq<RelationView>, n: int)
    requires
        0 <= n <= rels.len(),
    ensures
        evidence_total(rels.take(n)) <= evidence_total(rels),
    decreases rels.len() - n,
{
    if n < rels.len() {
        lemma_evidence_total_take(rels, n);
        lemma_total_grows(rels, n + 1);
    } else {
        assert(rels.take(n) =~= rels);
    }
}

// ---------------------------------------------------------------------------
// Markers and evidence entries
// ---------------------------------------------------------------------------

/// Whether `block` stands in `lines` from position `o` on.
pub open spec fn block_at(lines: Seq<Seq<char>>, o: int, block: Seq<Seq<char>>) -> bool {
    0 <= o && o + block.len() <= lines.len() && lines.subrange(o, o + block.len()) == block
}

proof fn lemma_block_in_prefix(a: Seq<Seq<char>>, b: Seq<Seq<char>>, o: int, block: Seq<Seq<char>>)
    requires
        block_at(a, o, block),
    ensures
        block_at(a + b, o, block),
{
    assert((a + b).subrange(o, o + block.len()) =~= a.subrange(o, o + block.len()));
}

proof fn lemma_block_in_suffix(a: Seq<Seq<char>>, b: Seq<Seq<char>>, o: int, block: Seq<Seq<char>>)
    requires
        block_at(b, o, block),
    ensures
        block_at(a + b, a.len() + o, block),
{
    assert((a + b).subrange(a.len() + o, a.len() + o + block.len()) =~= b.subrange(o, o + block.len()));
}

proof fn lemma_relation_entry_at(g: GraphView, rel: RelationView, evs: Seq<EvidenceView>, base: nat, k: int)
    requires
        0 <= k < evs.len(),
    ensures
        exists|o: int| #[trigger] block_at(
            relation_entries(g, rel, evs, base),
            o,
            entry_lines(evidence_label((base + k + 1) as nat), name_or_id(g, rel.from), rel.kind, name_or_id(g, rel.to), evs[k]),
        ),
    decreases evs.len(),
{
    let block = entry_lines(evidence_label((base + k + 1) as nat), name_or_id(g, rel.from), rel.kind, name_or_id(g, rel.to), evs[k]);
    let prev = relation_entries(g, rel, evs.drop_last(), base);
    if k == evs.len() - 1 {
        assert(block_at(block, 0, block)) by {
            assert(block.subrange(0, block.len() as int) =~= block);
        }
        lemma_block_in_suffix(prev, block, 0, block);
        assert(block_at(relation_entries(g, rel, evs, base), prev.len() as int, block));
    } else {
        lemma_relation_entry_at(g, rel, evs.drop_last(), base, k);
        assert(evs.drop_last()[k] == evs[k]);
        let o = choose|o: int| block_at(prev, o, block);
        lemma_block_in_prefix(
            prev,
            entry_lines(evidence_label(base + evs.len()), name_or_id(g, rel.from), rel.kind, name_or_id(g, rel.to), evs.last()),
            o,
            block,
        );
        assert(block_at(relation_entries(g, rel, evs, base), o, block));
    }
}

proof fn lemma_evidence_entry_at(g: GraphView, rels: Seq<RelationView>, j: int, k: int)
    requires
        0 <= j < rels.len(),
        0 <= k < rels[j].evidence.len(),
    ensures
        exists|o: int| #[trigger] block_at(
            evidence_entries(g, rels),
            o,
            entry_lines(
                evidence_label((evidence_total(rels.take(j)) + k + 1) as nat),
                name_or_id(g, rels[j].from),
                rels[j].kind,
                name_or_id(g, rels[j].to),
                rels[j].evidence[k],
            ),
        ),
    decreases rels.len(),
{
    let block = entry_lines(
        evidence_label((evidence_total(rels.take(j)) + k + 1) as nat),
        name_or_id(g, rels[j].from),
        rels[j].kind,
        name_or_id(g, rels[j].to),
        rels[j].evidence[k],
    );
    let prev = evidence_entries(g, rels.drop_last());
    let last = relation_entries(g, rels.last(), rels.last().evidence, evidence_total(rels.drop_last()));
    if j == rels.len() - 1 {
        assert(rels.take(j) =~= rels.drop_last());
        lemma_relation_entry_at(g, rels.last(), rels.last().evidence, evidence_total(rels.drop_last()), k);
        let o = choose|o: int| block_at(last, o, block);
        lemma_block_in_suffix(prev, last, o, block);
        assert(block_at(evidence_entries(g, rels), prev.len() + o, block));
    } else {
        lemma_evidence_entry_at(g, rels.drop_last(), j, k);
        assert(rels.drop_last().take(j) =~= rels.take(j));
        assert(rels.drop_last()[j] == rels[j]);
        let o = choose|o: int| block_at(prev, o, block);
        lemma_block_in_prefix(prev, last, o, block);
        assert(block_at(evidence_entries(g, rels), o, block));
    }
}

/// A chain marker names the evidence entry that describes the same piece of
/// evidence: in a graph whose relations have unique edges, the `k`-th
/// reference in the marker of a relation is labelled `e<m>`, and the evidence
/// section holds, under that label `e<m>`, the entry of the relation's `k`-th
/// piece of evidence, where `m` counts the pieces of evidence up to it.
pub proof fn law_marker_names_its_evidence_entry(g: GraphView, j: int, k: int)
    requires
        edges_unique(g.relations),
        0 <= j < g.relations.len(),
        0 <= k < g.relations[j].evidence.len(),
    ensures
        ({
            let rels = g.relations;
            let m = (evidence_total(rels.take(j)) + k + 1) as nat;
            &&& refs_in(rels, rels[j])[k] == (evidence_label(m), rels[j].evidence[k].confidence)
            &&& exists|o: int| #[trigger] block_at(
                evidence_entries(g, rels),
                o,
                entry_lines(
                    evidence_label(m),
                    name_or_id(g, rels[j].from),
                    rels[j].kind,
                    name_or_id(g, rels[j].to),
                    rels[j].evidence[k],
                ),
            )
        }),
{
    law_markers_cite_the_evidence_section(g.relations, j);
    lemma_evidence_entry_at(g, g.relations, j, k);
}

} // verus!
