use vstd::prelude::*;
use crate::backend::BackendStatusView;
use crate::cli::plain::{
    answer_lines, backend_lines, concat_lines, debug_lines, entity_details, evidence_entries, evidence_lines,
    graph_lines, incomplete_lines, match_line, match_lines, name_width, pad_right, plain_lines, plain_text,
    query_lines, relation_detail, section, status_line, styled, why_lines, PlainRenderMode,
};
use crate::cli::tree::{
    branch, child_prefix, children_lines, entity_tree, evidence_label, evidence_total, find_item_from, item_line,
    items_fold, lines_from, marker_text, name_or_id, refs_in, relation_refs, render_items_spec, roots_tree, why_roots,
    add_item, ItemView,
};
use crate::backend::state_display;
use crate::domain::entity::EntityView;
use crate::domain::entity::entity_kind_name;
use crate::domain::graph::{find_entity, GraphView};
use crate::domain::number::{all_digits, decimal, is_digit};
use crate::domain::query::{query_interpretation, query_kind, query_value, QueryView};
use crate::domain::relation::{relation_kind_label, RelationView};
use crate::engine::InvestigationView;

verus! {

// ---------------------------------------------------------------------------
// Style sequences
// ---------------------------------------------------------------------------


/// Where the run of decimal digits of `s` that starts at `i` ends.
pub open spec fn digit_run_end(s: Seq<char>, i: nat) -> nat
    decreases s.len() - i,
{
    if i < s.len() && is_digit(s[i as int]) {
        digit_run_end(s, i + 1)
    } else {
        i
    }
}

/// A run of digits ends at or after where it starts, and within the text.
pub proof fn lemma_digit_run_end(s: Seq<char>, i: nat)
    ensures
        i <= digit_run_end(s, i),
        i <= s.len() ==> digit_run_end(s, i) <= s.len(),
    decreases s.len() - i,
{
    if i < s.len() && is_digit(s[i as int]) {
        lemma_digit_run_end(s, i + 1);
    }
}

/// The length of the ANSI style sequence `ESC [ digits m` that `s` starts
/// with, where it starts with one.
pub open spec fn style_len(s: Seq<char>) -> Option<nat> {
    if s.len() >= 2 && s[0] == '\x1b' && s[1] == '[' && digit_run_end(s, 2) < s.len() && s[digit_run_end(s, 2) as int] == 'm' {
        Some(digit_run_end(s, 2) + 1)
    } else {
        None
    }
}

/// `s` with every ANSI style sequence `ESC [ digits m` taken out.
pub open spec fn strip_styles(s: Seq<char>) -> Seq<char>
    decreases s.len(),
{
    if s.len() == 0 {
        Seq::empty()
    } else {
        match style_len(s) {
            Some(n) => {
                proof {
                    lemma_digit_run_end(s, 2);
                }
                strip_styles(s.skip(n as int))
            },
            None => seq![s[0]] + strip_styles(s.drop_first()),
        }
    }
}

/// Whether `s` holds no escape character.
pub open spec fn escape_free(s: Seq<char>) -> bool {
    forall|i: int| 0 <= i < s.len() ==> s[i] != '\x1b'
}

proof fn lemma_strip_plain_prefix(x: Seq<char>, rest: Seq<char>)
    requires
        escape_free(x),
    ensures
        strip_styles(x + rest) == x + strip_styles(rest),
    decreases x.len(),
{
    if x.len() > 0 {
        let s = x + rest;
        assert(s[0] == x[0]);
        assert(style_len(s) is None);
        assert(s.drop_first() =~= x.drop_first() + rest);
        lemma_strip_plain_prefix(x.drop_first(), rest);
        assert(x =~= seq![x[0]] + x.drop_first());
    } else {
        assert(x + rest =~= rest);
    }
}

proof fn lemma_digit_run_over(code: Seq<char>, tail: Seq<char>, k: nat)
    requires
        all_digits(code),
        k <= code.len(),
        tail.len() > 0,
        tail[0] == 'm',
    ensures
        digit_run_end(seq!['\x1b', '['] + code + tail, 2 + k) == 2 + code.len(),
    decreases code.len() - k,
{
    let s = seq!['\x1b', '['] + code + tail;
    if k < code.len() {
        assert(s[2 + k as int] == code[k as int]);
        lemma_digit_run_over(code, tail, k + 1);
    } else {
        assert(s[2 + k as int] == 'm');
    }
}

proof fn lemma_strip_style_prefix(code: Seq<char>, rest: Seq<char>)
    requires
        all_digits(code),
    ensures
        strip_styles(seq!['\x1b', '['] + code + (seq!['m'] + rest)) == strip_styles(rest),
{
    let s = seq!['\x1b', '['] + code + (seq!['m'] + rest);
    lemma_digit_run_over(code, seq!['m'] + rest, 0);
    assert(s[(2 + code.len()) as int] == 'm');
    assert(style_len(s) == Some((3 + code.len()) as nat));
    assert(s.skip(3 + code.len() as int) =~= rest);
}

proof fn lemma_strip_styled(text: Seq<char>, code: Seq<char>, rest: Seq<char>)
    requires
        escape_free(text),
        all_digits(code),
    ensures
        strip_styles(styled(text, code, true) + rest) == text + strip_styles(rest),
{
    reveal_strlit("\x1b[");
    reveal_strlit("m");
    reveal_strlit("\x1b[0m");
    let zero = seq!['0'];
    assert(all_digits(zero));
    let close = "\x1b[0m"@;
    let inner = text + close + rest;
    assert(styled(text, code, true) + rest =~= seq!['\x1b', '['] + code + (seq!['m'] + inner));
    lemma_strip_style_prefix(code, inner);
    assert(inner =~= text + (close + rest));
    lemma_strip_plain_prefix(text, close + rest);
    assert(close + rest =~= seq!['\x1b', '['] + zero + (seq!['m'] + rest));
    lemma_strip_style_prefix(zero, rest);
}

// ---------------------------------------------------------------------------
// Text that strips to other text
// ---------------------------------------------------------------------------

/// Whether taking the style sequences out of `a`, and of whatever follows
/// it, gives `b` followed by what follows stripped.
pub open spec fn strips_to(a: Seq<char>, b: Seq<char>) -> bool {
    forall|rest: Seq<char>| #[trigger] strip_styles(a + rest) == b + strip_styles(rest)
}

/// Whether each line of `a` strips to the line of `b` in its place.
pub open spec fn lines_strip(a: Seq<Seq<char>>, b: Seq<Seq<char>>) -> bool {
    a.len() == b.len() && forall|i: int| 0 <= i < a.len() ==> strips_to(#[trigger] a[i], b[i])
}

/// Whether no line holds an escape character.
pub open spec fn lines_escape_free(b: Seq<Seq<char>>) -> bool {
    forall|i: int| 0 <= i < b.len() ==> escape_free(#[trigger] b[i])
}

proof fn lemma_escape_free_split(x: Seq<char>, y: Seq<char>)
    requires
        escape_free(x + y),
    ensures
        escape_free(x),
        escape_free(y),
{
    assert forall|i: int| 0 <= i < x.len() implies x[i] != '\x1b' by {
        assert((x + y)[i] == x[i]);
    }
    assert forall|i: int| 0 <= i < y.len() implies y[i] != '\x1b' by {
        assert((x + y)[x.len() + i] == y[i]);
    }
}

proof fn lemma_strips_plain(x: Seq<char>)
    requires
        escape_free(x),
    ensures
        strips_to(x, x),
{
    assert forall|rest: Seq<char>| #[trigger] strip_styles(x + rest) == x + strip_styles(rest) by {
        lemma_strip_plain_prefix(x, rest);
    }
}

proof fn lemma_strips_styled(text: Seq<char>, code: Seq<char>)
    requires
        escape_free(text),
        all_digits(code),
    ensures
        strips_to(styled(text, code, true), text),
{
    assert forall|rest: Seq<char>| #[trigger] strip_styles(styled(text, code, true) + rest) == text + strip_styles(rest) by {
        lemma_strip_styled(text, code, rest);
    }
}

proof fn lemma_strips_concat(a1: Seq<char>, b1: Seq<char>, a2: Seq<char>, b2: Seq<char>)
    requires
        strips_to(a1, b1),
        strips_to(a2, b2),
    ensures
        strips_to(a1 + a2, b1 + b2),
{
    assert forall|rest: Seq<char>| #[trigger] strip_styles((a1 + a2) + rest) == (b1 + b2) + strip_styles(rest) by {
        assert((a1 + a2) + rest =~= a1 + (a2 + rest));
        assert(strip_styles(a1 + (a2 + rest)) == b1 + strip_styles(a2 + rest));
        assert(strip_styles(a2 + rest) == b2 + strip_styles(rest));
        assert(b1 + (b2 + strip_styles(rest)) =~= (b1 + b2) + strip_styles(rest));
    }
}

proof fn lemma_codes_are_digits()
    ensures
        all_digits("92"@),
        all_digits("36"@),
        all_digits("90"@),
        all_digits("97"@),
{
    reveal_strlit("92");
    reveal_strlit("36");
    reveal_strlit("90");
    reveal_strlit("97");
    assert(is_digit('9') && is_digit('2') && is_digit('3') && is_digit('6') && is_digit('0') && is_digit('7'));
}

// ---------------------------------------------------------------------------
// Lists of lines
// ---------------------------------------------------------------------------

proof fn lemma_lines_concat(a1: Seq<Seq<char>>, b1: Seq<Seq<char>>, a2: Seq<Seq<char>>, b2: Seq<Seq<char>>)
    requires
        lines_strip(a1, b1),
        lines_strip(a2, b2),
    ensures
        lines_strip(a1 + a2, b1 + b2),
{
    assert forall|i: int| 0 <= i < (a1 + a2).len() implies strips_to(#[trigger] (a1 + a2)[i], (b1 + b2)[i]) by {
        if i < a1.len() {
            assert((a1 + a2)[i] == a1[i] && (b1 + b2)[i] == b1[i]);
        } else {
            assert((a1 + a2)[i] == a2[i - a1.len()] && (b1 + b2)[i] == b2[i - a1.len()]);
        }
    }
}

proof fn lemma_lines_free_split(b1: Seq<Seq<char>>, b2: Seq<Seq<char>>)
    requires
        lines_escape_free(b1 + b2),
    ensures
        lines_escape_free(b1),
        lines_escape_free(b2),
{
    assert forall|i: int| 0 <= i < b1.len() implies escape_free(#[trigger] b1[i]) by {
        assert((b1 + b2)[i] == b1[i]);
    }
    assert forall|i: int| 0 <= i < b2.len() implies escape_free(#[trigger] b2[i]) by {
        assert((b1 + b2)[b1.len() + i] == b2[i]);
    }
}

proof fn lemma_lines_same(b: Seq<Seq<char>>)
    requires
        lines_escape_free(b),
    ensures
        lines_strip(b, b),
{
    assert forall|i: int| 0 <= i < b.len() implies strips_to(#[trigger] b[i], b[i]) by {
        lemma_strips_plain(b[i]);
    }
}

proof fn lemma_strips_empty()
    ensures
        strips_to(Seq::empty(), Seq::empty()),
{
    assert forall|rest: Seq<char>| #[trigger] strip_styles(Seq::<char>::empty() + rest) == Seq::<char>::empty() + strip_styles(rest) by {
        assert(Seq::<char>::empty() + rest =~= rest);
        assert(Seq::<char>::empty() + strip_styles(rest) =~= strip_styles(rest));
    }
}

/// A section strips to itself without colour, followed by lines that do
/// not depend on colour.
proof fn lemma_section_then(title: Seq<char>, rest: Seq<Seq<char>>)
    requires
        lines_escape_free(section(title, false) + rest),
    ensures
        lines_strip(section(title, true) + rest, section(title, false) + rest),
{
    lemma_lines_free_split(section(title, false), rest);
    assert(section(title, false)[1] == title);
    lemma_codes_are_digits();
    lemma_strips_styled(title, "92"@);
    lemma_strips_empty();
    assert(lines_strip(section(title, true), section(title, false)));
    lemma_lines_same(rest);
    lemma_lines_concat(section(title, true), section(title, false), rest, rest);
}

// ---------------------------------------------------------------------------
// The lines of each section
// ---------------------------------------------------------------------------

proof fn lemma_item_strips(it: ItemView, prefix: Seq<char>, last: bool)
    requires
        escape_free(item_line(it, prefix, last, false)),
    ensures
        strips_to(item_line(it, prefix, last, true), item_line(it, prefix, last, false)),
{
    let b = branch(last);
    let k = " "@ + relation_kind_label(it.kind) + " "@;
    let m = marker_text(it.refs);
    let lf = item_line(it, prefix, last, false);
    assert(lf =~= prefix + b + k + it.label + m);
    lemma_escape_free_split(prefix + b + k + it.label, m);
    lemma_escape_free_split(prefix + b + k, it.label);
    lemma_escape_free_split(prefix + b, k);
    lemma_escape_free_split(prefix, b);
    lemma_codes_are_digits();
    lemma_strips_plain(prefix);
    lemma_strips_styled(b, "90"@);
    lemma_strips_plain(k);
    lemma_strips_styled(it.label, "97"@);
    lemma_strips_styled(m, "90"@);
    lemma_strips_concat(prefix, prefix, styled(b, "90"@, true), b);
    lemma_strips_concat(prefix + styled(b, "90"@, true), prefix + b, k, k);
    lemma_strips_concat(prefix + styled(b, "90"@, true) + k, prefix + b + k, styled(it.label, "97"@, true), it.label);
    lemma_strips_concat(
        prefix + styled(b, "90"@, true) + k + styled(it.label, "97"@, true),
        prefix + b + k + it.label,
        styled(m, "90"@, true),
        m,
    );
    assert(item_line(it, prefix, last, true) =~= prefix + styled(b, "90"@, true) + k + styled(it.label, "97"@, true) + styled(m, "90"@, true));
}

proof fn lemma_children_strip(g: GraphView, id: Seq<char>, prefix: Seq<char>, mode: PlainRenderMode, fuel: nat)
    requires
        lines_escape_free(children_lines(g, id, prefix, mode, false, fuel)),
    ensures
        lines_strip(children_lines(g, id, prefix, mode, true, fuel), children_lines(g, id, prefix, mode, false, fuel)),
    decreases fuel, 1nat, 0nat,
{
    if fuel > 0 {
        lemma_lines_from_strip(g, render_items_spec(g, id, mode), 0, prefix, mode, fuel);
    }
}

proof fn lemma_lines_from_strip(
    g: GraphView,
    items: Seq<ItemView>,
    i: int,
    prefix: Seq<char>,
    mode: PlainRenderMode,
    fuel: nat,
)
    requires
        lines_escape_free(lines_from(g, items, i, prefix, mode, false, fuel)),
    ensures
        lines_strip(lines_from(g, items, i, prefix, mode, true, fuel), lines_from(g, items, i, prefix, mode, false, fuel)),
    decreases fuel, 0nat, items.len() - i,
{
    if !(i < 0 || i >= items.len() || fuel == 0) {
        let last = i + 1 == items.len();
        let lt = item_line(items[i], prefix, last, true);
        let lf = item_line(items[i], prefix, last, false);
        let cp = prefix + child_prefix(last);
        let ct = children_lines(g, items[i].to, cp, mode, true, (fuel - 1) as nat);
        let cf = children_lines(g, items[i].to, cp, mode, false, (fuel - 1) as nat);
        let rt = lines_from(g, items, i + 1, prefix, mode, true, fuel);
        let rf = lines_from(g, items, i + 1, prefix, mode, false, fuel);
        assert(lines_from(g, items, i, prefix, mode, false, fuel) == seq![lf] + cf + rf);
        assert(lines_from(g, items, i, prefix, mode, true, fuel) == seq![lt] + ct + rt);
        lemma_lines_free_split(seq![lf] + cf, rf);
        lemma_lines_free_split(seq![lf], cf);
        assert(seq![lf][0] == lf);
        lemma_item_strips(items[i], prefix, last);
        assert(lines_strip(seq![lt], seq![lf]));
        lemma_children_strip(g, items[i].to, cp, mode, (fuel - 1) as nat);
        lemma_lines_from_strip(g, items, i + 1, prefix, mode, fuel);
        lemma_lines_concat(seq![lt], seq![lf], ct, cf);
        lemma_lines_concat(seq![lt] + ct, seq![lf] + cf, rt, rf);
    }
}

proof fn lemma_roots_strip(g: GraphView, roots: Seq<Seq<char>>, mode: PlainRenderMode)
    requires
        lines_escape_free(roots_tree(g, roots, mode, false)),
    ensures
        lines_strip(roots_tree(g, roots, mode, true), roots_tree(g, roots, mode, false)),
    decreases roots.len(),
{
    if roots.len() > 0 {
        let id = roots.last();
        lemma_lines_free_split(roots_tree(g, roots.drop_last(), mode, false), entity_tree(g, id, mode, false));
        lemma_roots_strip(g, roots.drop_last(), mode);
        match find_entity(g.entities, id) {
            Some(e) => {
                let depth = (g.relations.len() + 1) as nat;
                let cf = children_lines(g, id, Seq::empty(), mode, false, depth);
                let ct = children_lines(g, id, Seq::empty(), mode, true, depth);
                lemma_lines_free_split(seq![e.name], cf);
                lemma_lines_same(seq![e.name]);
                lemma_children_strip(g, id, Seq::empty(), mode, depth);
                lemma_lines_concat(seq![e.name], seq![e.name], ct, cf);
            },
            None => {
                lemma_lines_same(Seq::<Seq<char>>::empty());
            },
        }
        lemma_lines_concat(
            roots_tree(g, roots.drop_last(), mode, true),
            roots_tree(g, roots.drop_last(), mode, false),
            entity_tree(g, id, mode, true),
            entity_tree(g, id, mode, false),
        );
    } else {
        lemma_lines_same(Seq::<Seq<char>>::empty());
    }
}

proof fn lemma_match_strips(g: GraphView, i: int, id: Seq<char>)
    requires
        escape_free(match_line(g, i, id, false)),
    ensures
        strips_to(match_line(g, i, id, true), match_line(g, i, id, false)),
{
    if i != 0 {
        lemma_strips_plain(match_line(g, i, id, false));
    } else {
        let tail = match find_entity(g.entities, id) {
            Some(e) => " "@ + pad_right(entity_kind_name(e.kind), 11) + " "@ + e.name,
            None => " "@ + id,
        };
        let lf = match_line(g, i, id, false);
        assert(lf =~= "  "@ + ">"@ + tail);
        assert(match_line(g, i, id, true) =~= "  "@ + styled(">"@, "36"@, true) + tail);
        lemma_escape_free_split("  "@ + ">"@, tail);
        lemma_escape_free_split("  "@, ">"@);
        lemma_codes_are_digits();
        lemma_strips_plain("  "@);
        lemma_strips_styled(">"@, "36"@);
        lemma_strips_plain(tail);
        lemma_strips_concat("  "@, "  "@, styled(">"@, "36"@, true), ">"@);
        lemma_strips_concat("  "@ + styled(">"@, "36"@, true), "  "@ + ">"@, tail, tail);
    }
}

proof fn lemma_plain_lines_strip(inv: InvestigationView, mode: PlainRenderMode)
    requires
        lines_escape_free(plain_lines(inv, mode, false)),
    ensures
        lines_strip(plain_lines(inv, mode, true), plain_lines(inv, mode, false)),
{
    let q = query_lines(inv, false);
    let a = answer_lines(inv, false);
    let m = match_lines(inv, false);
    let w = why_lines(inv, mode, false);
    let e = evidence_lines(inv, mode, false);
    let gl = graph_lines(inv, mode, false);
    let inc = incomplete_lines(inv, false);
    let b = backend_lines(inv, false);
    let d = debug_lines(inv, mode, false);
    lemma_lines_free_split(q + a + m + w + e + gl + inc + b, d);
    lemma_lines_free_split(q + a + m + w + e + gl + inc, b);
    lemma_lines_free_split(q + a + m + w + e + gl, inc);
    lemma_lines_free_split(q + a + m + w + e, gl);
    lemma_lines_free_split(q + a + m + w, e);
    lemma_lines_free_split(q + a + m, w);
    lemma_lines_free_split(q + a, m);
    lemma_lines_free_split(q, a);
    lemma_codes_are_digits();

    // The query header.
    assert(q[0] == "Query"@);
    lemma_strips_styled("Query"@, "92"@);
    lemma_strips_plain(q[1]);
    lemma_strips_plain(q[2]);
    assert(lines_strip(query_lines(inv, true), q));

    // The sections that are a title and lines without colour.
    lemma_section_then("Answer"@, seq!["  "@ + inv.answer]);
    if e.len() > 0 {
        lemma_section_then("Evidence"@, evidence_entries(inv.graph, inv.graph.relations));
    } else {
        lemma_lines_same(e);
    }
    if gl.len() > 0 {
        let listed = seq!["  Entities:"@] + entity_details(inv.graph.entities) + seq!["  Relations:"@]
            + inv.graph.relations.map_values(|r: RelationView| relation_detail(r));
        assert(gl =~= section("Graph"@, false) + listed);
        assert(graph_lines(inv, mode, true) =~= section("Graph"@, true) + listed);
        lemma_section_then("Graph"@, listed);
    } else {
        lemma_lines_same(gl);
    }
    if inc.len() > 0 {
        lemma_section_then("Incomplete"@, inv.incomplete.map_values(|x: Seq<char>| "  "@ + x));
    } else {
        lemma_lines_same(inc);
    }
    if b.len() > 0 {
        lemma_section_then(
            "Backend status"@,
            inv.backend_status.map_values(
                |st: BackendStatusView| status_line(st, name_width(inv.backend_status)),
            ),
        );
    } else {
        lemma_lines_same(b);
    }
    if d.len() > 0 {
        lemma_section_then(
            "Debug"@,
            seq![
                "  Query kind: "@ + query_kind(inv.query),
                "  Entity count: "@ + decimal(inv.graph.entities.len()),
                "  Relation count: "@ + decimal(inv.graph.relations.len()),
                "  Match count: "@ + decimal(inv.matches.len()),
                "  Incomplete count: "@ + decimal(inv.incomplete.len()),
            ],
        );
    } else {
        lemma_lines_same(d);
    }

    // The matches.
    if inv.matches.len() > 0 {
        let mt = Seq::new(inv.matches.len(), |i: int| match_line(inv.graph, i, inv.matches[i], true));
        let mf = Seq::new(inv.matches.len(), |i: int| match_line(inv.graph, i, inv.matches[i], false));
        lemma_lines_free_split(section("Matches"@, false), mf);
        assert forall|i: int| 0 <= i < mt.len() implies strips_to(#[trigger] mt[i], mf[i]) by {
            assert(escape_free(mf[i]));
            lemma_match_strips(inv.graph, i, inv.matches[i]);
        }
        lemma_section_then("Matches"@, Seq::empty());
        assert(section("Matches"@, true) + Seq::<Seq<char>>::empty() =~= section("Matches"@, true));
        assert(section("Matches"@, false) + Seq::<Seq<char>>::empty() =~= section("Matches"@, false));
        lemma_lines_concat(section("Matches"@, true), section("Matches"@, false), mt, mf);
    } else {
        lemma_lines_same(m);
    }

    // The chain.
    if w.len() > 0 {
        let roots = why_roots(inv.matches, inv.graph);
        lemma_lines_free_split(section("Main chain"@, false), roots_tree(inv.graph, roots, mode, false));
        lemma_roots_strip(inv.graph, roots, mode);
        lemma_section_then("Main chain"@, Seq::empty());
        assert(section("Main chain"@, true) + Seq::<Seq<char>>::empty() =~= section("Main chain"@, true));
        assert(section("Main chain"@, false) + Seq::<Seq<char>>::empty() =~= section("Main chain"@, false));
        lemma_lines_concat(
            section("Main chain"@, true),
            section("Main chain"@, false),
            roots_tree(inv.graph, roots, mode, true),
            roots_tree(inv.graph, roots, mode, false),
        );
    } else {
        lemma_lines_same(w);
    }

    let qt = query_lines(inv, true);
    let at = answer_lines(inv, true);
    let mtt = match_lines(inv, true);
    let wt = why_lines(inv, mode, true);
    let et = evidence_lines(inv, mode, true);
    let gt = graph_lines(inv, mode, true);
    let it = incomplete_lines(inv, true);
    let bt = backend_lines(inv, true);
    let dt = debug_lines(inv, mode, true);
    lemma_lines_concat(qt, q, at, a);
    lemma_lines_concat(qt + at, q + a, mtt, m);
    lemma_lines_concat(qt + at + mtt, q + a + m, wt, w);
    lemma_lines_concat(qt + at + mtt + wt, q + a + m + w, et, e);
    lemma_lines_concat(qt + at + mtt + wt + et, q + a + m + w + e, gt, gl);
    lemma_lines_concat(qt + at + mtt + wt + et + gt, q + a + m + w + e + gl, it, inc);
    lemma_lines_concat(qt + at + mtt + wt + et + gt + it, q + a + m + w + e + gl + inc, bt, b);
    lemma_lines_concat(qt + at + mtt + wt + et + gt + it + bt, q + a + m + w + e + gl + inc + b, dt, d);
}

proof fn lemma_concat_free(lines: Seq<Seq<char>>)
    requires
        escape_free(concat_lines(lines)),
    ensures
        lines_escape_free(lines),
    decreases lines.len(),
{
    if lines.len() > 0 {
        lemma_escape_free_split(concat_lines(lines.drop_last()) + lines.last(), "\n"@);
        lemma_escape_free_split(concat_lines(lines.drop_last()), lines.last());
        lemma_concat_free(lines.drop_last());
        assert forall|i: int| 0 <= i < lines.len() implies escape_free(#[trigger] lines[i]) by {
            if i < lines.len() - 1 {
                assert(lines[i] == lines.drop_last()[i]);
            }
        }
    }
}

proof fn lemma_concat_strip(a: Seq<Seq<char>>, b: Seq<Seq<char>>)
    requires
        lines_strip(a, b),
    ensures
        strips_to(concat_lines(a), concat_lines(b)),
    decreases a.len(),
{
    if a.len() == 0 {
        lemma_strips_empty();
    } else {
        assert(lines_strip(a.drop_last(), b.drop_last())) by {
            assert forall|i: int| 0 <= i < a.drop_last().len() implies strips_to(#[trigger] a.drop_last()[i], b.drop_last()[i]) by {
                assert(a.drop_last()[i] == a[i] && b.drop_last()[i] == b[i]);
            }
        }
        lemma_concat_strip(a.drop_last(), b.drop_last());
        assert(strips_to(a.last(), b.last())) by {
            assert(a.last() == a[a.len() - 1] && b.last() == b[b.len() - 1]);
        }
        reveal_strlit("\n");
        assert(escape_free("\n"@)) by {
            assert forall|i: int| 0 <= i < "\n"@.len() implies "\n"@[i] != '\x1b' by {
                assert("\n"@[0] == '\n');
            }
        }
        lemma_strips_plain("\n"@);
        lemma_strips_concat(concat_lines(a.drop_last()), concat_lines(b.drop_last()), a.last(), b.last());
        lemma_strips_concat(concat_lines(a.drop_last()) + a.last(), concat_lines(b.drop_last()) + b.last(), "\n"@, "\n"@);
    }
}

/// Colour adds nothing but style sequences: where no text of the
/// investigation that the plain output shows holds an escape character, the
/// output without colour holds none either, and taking every
/// `ESC [ digits m` sequence out of the coloured output gives the output
/// without colour.
pub proof fn law_colour_only_adds_styles(inv: InvestigationView, mode: PlainRenderMode)
    requires
        texts_escape_free(inv),
    ensures
        escape_free(plain_text(inv, mode, false)),
        strip_styles(plain_text(inv, mode, true)) == plain_text(inv, mode, false),
{
    law_escape_free_texts_give_escape_free_output(inv, mode);
    lemma_concat_free(plain_lines(inv, mode, false));
    lemma_plain_lines_strip(inv, mode);
    lemma_concat_strip(plain_lines(inv, mode, true), plain_lines(inv, mode, false));
    let t = plain_text(inv, mode, true);
    assert(t + Seq::<char>::empty() =~= t);
    assert(strip_styles(t + Seq::<char>::empty()) == plain_text(inv, mode, false) + strip_styles(Seq::<char>::empty()));
    assert(plain_text(inv, mode, false) + Seq::<char>::empty() =~= plain_text(inv, mode, false));
}

// ---------------------------------------------------------------------------
// Texts without escape characters
// ---------------------------------------------------------------------------

/// Text joined from texts without escape characters has none.
pub broadcast proof fn lemma_escape_free_add(a: Seq<char>, b: Seq<char>)
    requires
        escape_free(a),
        escape_free(b),
    ensures
        #[trigger] escape_free(a + b),
{
    assert forall|i: int| 0 <= i < (a + b).len() implies (a + b)[i] != '\x1b' by {
        if i < a.len() {
            assert((a + b)[i] == a[i]);
        } else {
            assert((a + b)[i] == b[i - a.len()]);
        }
    }
}

/// Lines joined from lines without escape characters have none.
pub broadcast proof fn lemma_lines_escape_free_add(a: Seq<Seq<char>>, b: Seq<Seq<char>>)
    requires
        lines_escape_free(a),
        lines_escape_free(b),
    ensures
        #[trigger] lines_escape_free(a + b),
{
    assert forall|i: int| 0 <= i < (a + b).len() implies escape_free(#[trigger] (a + b)[i]) by {
        if i < a.len() {
            assert((a + b)[i] == a[i]);
        } else {
            assert((a + b)[i] == b[i - a.len()]);
        }
    }
}

proof fn lemma_entity_kind_name_free(k: crate::domain::entity::EntityKind)
    ensures
        escape_free(entity_kind_name(k)),
{
    reveal_strlit("file");
    reveal_strlit("executable");
    reveal_strlit("package");
    reveal_strlit("process");
    reveal_strlit("service");
    reveal_strlit("port");
    reveal_strlit("socket");
    reveal_strlit("mount");
    reveal_strlit("configuration");
    reveal_strlit("store_path");
    reveal_strlit("derivation");
    reveal_strlit("generation");
    reveal_strlit("kernel_module");
    reveal_strlit("device");
}

proof fn lemma_relation_kind_names_free(k: crate::domain::relation::RelationKind)
    ensures
        escape_free(crate::domain::relation::relation_kind_name(k)),
        escape_free(relation_kind_label(k)),
{
    reveal_strlit("owns");
    reveal_strlit("requires");
    reveal_strlit("references");
    reveal_strlit("refers_to");
    reveal_strlit("started_by");
    reveal_strlit("enabled_by");
    reveal_strlit("configured_by");
    reveal_strlit("declared_at");
    reveal_strlit("installed_because_of");
    reveal_strlit("exposes");
    reveal_strlit("resolves_to");
    reveal_strlit("generated_from");
    reveal_strlit("kept_alive_by");
    reveal_strlit("loaded_by");
    reveal_strlit("belongs_to");
    reveal_strlit("reachable_from");
    reveal_strlit("uses");
    reveal_strlit("resolves to");
    reveal_strlit("belongs to");
    reveal_strlit("kept because of");
    reveal_strlit("started by");
    reveal_strlit("configured by");
    reveal_strlit("declared in");
    reveal_strlit("generated from");
    reveal_strlit("kept alive by");
    reveal_strlit("refers to");
    reveal_strlit("enabled by");
    reveal_strlit("installed because of");
    reveal_strlit("loaded by");
}

proof fn lemma_confidence_name_free(c: crate::domain::confidence::Confidence)
    ensures
        escape_free(crate::domain::confidence::confidence_name(c)),
{
    reveal_strlit("exact");
    reveal_strlit("strong");
    reveal_strlit("inferred");
    reveal_strlit("unknown");
}

proof fn lemma_decimal_free(n: nat)
    ensures
        escape_free(decimal(n)),
{
    crate::domain::number::lemma_decimal_reads_back(n);
    assert forall|i: int| 0 <= i < decimal(n).len() implies decimal(n)[i] != '\x1b' by {
        assert(is_digit(decimal(n)[i]));
    }
}

/// Whether the text of a query holds no escape character.
pub open spec fn query_text_escape_free(q: QueryView) -> bool {
    match q {
        QueryView::Auto(t) => escape_free(t),
        QueryView::File(t) => escape_free(t),
        QueryView::Package(t) => escape_free(t),
        QueryView::Service(t) => escape_free(t),
        QueryView::StorePath(t) => escape_free(t),
        _ => true,
    }
}

/// Whether the texts of a graph that the plain output shows hold no escape
/// character: the identifiers, names and metadata of the entities, the ends
/// of the relations, and where each piece of evidence comes from and what
/// it says.
pub open spec fn graph_texts_escape_free(g: GraphView) -> bool {
    &&& forall|i: int| 0 <= i < g.entities.len() ==> {
        let e = #[trigger] g.entities[i];
        &&& escape_free(e.id)
        &&& escape_free(e.name)
        &&& forall|j: int| 0 <= j < e.metadata.len() ==> escape_free(#[trigger] e.metadata[j].0) && escape_free(e.metadata[j].1)
    }
    &&& forall|i: int| 0 <= i < g.relations.len() ==> {
        let r = #[trigger] g.relations[i];
        &&& escape_free(r.from)
        &&& escape_free(r.to)
        &&& forall|j: int| 0 <= j < r.evidence.len() ==> {
            let ev = #[trigger] r.evidence[j];
            escape_free(ev.backend) && escape_free(ev.source) && escape_free(ev.description)
        }
    }
}

/// Whether the texts of an investigation that the plain output shows hold
/// no escape character.
pub open spec fn texts_escape_free(inv: InvestigationView) -> bool {
    &&& query_text_escape_free(inv.query)
    &&& escape_free(inv.answer)
    &&& forall|i: int| 0 <= i < inv.matches.len() ==> escape_free(#[trigger] inv.matches[i])
    &&& forall|i: int| 0 <= i < inv.incomplete.len() ==> escape_free(#[trigger] inv.incomplete[i])
    &&& graph_texts_escape_free(inv.graph)
    &&& forall|i: int| 0 <= i < inv.backend_status.len() ==> {
        let st = #[trigger] inv.backend_status[i];
        escape_free(st.backend) && escape_free(state_display(st.state))
    }
}

proof fn lemma_query_texts_free(q: QueryView)
    requires
        query_text_escape_free(q),
    ensures
        escape_free(query_value(q)),
        escape_free(query_interpretation(q)),
        escape_free(query_kind(q)),
{
    broadcast use lemma_escape_free_add;
    reveal_strlit("auto search");
    reveal_strlit("file path");
    reveal_strlit("package search");
    reveal_strlit("process id");
    reveal_strlit("systemd service");
    reveal_strlit("network port");
    reveal_strlit("nix store path");
    reveal_strlit("auto");
    reveal_strlit("file");
    reveal_strlit("package");
    reveal_strlit("process");
    reveal_strlit("service");
    reveal_strlit("port");
    reveal_strlit("store_path");
    reveal_strlit("tcp");
    reveal_strlit("udp");
    reveal_strlit(":");
    match q {
        QueryView::Process(pid) => {
            lemma_decimal_free(pid as nat);
        },
        QueryView::Port { number, protocol } => {
            lemma_decimal_free(number as nat);
        },
        _ => {},
    }
}

proof fn lemma_found_entity_free(s: Seq<EntityView>, id: Seq<char>)
    requires
        forall|i: int| 0 <= i < s.len() ==> escape_free((#[trigger] s[i]).name),
    ensures
        find_entity(s, id) matches Some(e) ==> escape_free(e.name),
    decreases s.len(),
{
    if s.len() > 0 && s[0].id != id {
        assert forall|i: int| 0 <= i < s.drop_first().len() implies escape_free((#[trigger] s.drop_first()[i]).name) by {
            assert(s.drop_first()[i] == s[i + 1]);
        }
        lemma_found_entity_free(s.drop_first(), id);
    }
}

proof fn lemma_name_or_id_free(g: GraphView, id: Seq<char>)
    requires
        graph_texts_escape_free(g),
        escape_free(id),
    ensures
        escape_free(name_or_id(g, id)),
{
    lemma_found_entity_free(g.entities, id);
}

/// Whether the labels of the references hold no escape character.
pub open spec fn refs_escape_free(refs: Seq<(Seq<char>, crate::domain::confidence::Confidence)>) -> bool {
    forall|j: int| 0 <= j < refs.len() ==> escape_free(#[trigger] refs[j].0)
}

proof fn lemma_refs_concat_free(
    a: Seq<(Seq<char>, crate::domain::confidence::Confidence)>,
    b: Seq<(Seq<char>, crate::domain::confidence::Confidence)>,
)
    requires
        refs_escape_free(a),
        refs_escape_free(b),
    ensures
        refs_escape_free(a + b),
{
    assert forall|j: int| 0 <= j < (a + b).len() implies escape_free(#[trigger] (a + b)[j].0) by {
        if j < a.len() {
            assert((a + b)[j] == a[j]);
        } else {
            assert((a + b)[j] == b[j - a.len()]);
        }
    }
}

proof fn lemma_relation_refs_free(evs: Seq<crate::domain::evidence::EvidenceView>, base: nat)
    ensures
        refs_escape_free(relation_refs(evs, base)),
    decreases evs.len(),
{
    broadcast use lemma_escape_free_add;
    if evs.len() > 0 {
        lemma_relation_refs_free(evs.drop_last(), base);
        reveal_strlit("e");
        lemma_decimal_free(base + evs.len());
        let prev = relation_refs(evs.drop_last(), base);
        let r = relation_refs(evs, base);
        assert(escape_free(evidence_label(base + evs.len())));
        assert forall|j: int| 0 <= j < r.len() implies escape_free(#[trigger] r[j].0) by {
            if j < prev.len() {
                assert(r[j] == prev[j]);
            }
        }
    }
}

proof fn lemma_refs_in_free(rels: Seq<RelationView>, rel: RelationView)
    ensures
        refs_escape_free(refs_in(rels, rel)),
    decreases rels.len(),
{
    if rels.len() > 0 {
        lemma_refs_in_free(rels.drop_last(), rel);
        lemma_relation_refs_free(rels.last().evidence, evidence_total(rels.drop_last()));
        lemma_refs_concat_free(
            refs_in(rels.drop_last(), rel),
            relation_refs(rels.last().evidence, evidence_total(rels.drop_last())),
        );
    }
}

proof fn lemma_marker_free(refs: Seq<(Seq<char>, crate::domain::confidence::Confidence)>)
    requires
        refs_escape_free(refs),
    ensures
        escape_free(marker_text(refs)),
{
    broadcast use lemma_escape_free_add;
    reveal_strlit(" [");
    reveal_strlit(" ");
    reveal_strlit("]");
    reveal_strlit(" +");
    if refs.len() > 0 {
        assert(escape_free(refs[0].0));
        lemma_confidence_name_free(refs[0].1);
        lemma_decimal_free((refs.len() - 1) as nat);
    }
    assert(escape_free(Seq::<char>::empty()));
}

/// Whether an item's label and references hold no escape character.
pub open spec fn item_escape_free(it: ItemView) -> bool {
    escape_free(it.label) && refs_escape_free(it.refs)
}

proof fn lemma_items_fold_free(g: GraphView, rels: Seq<RelationView>, mode: PlainRenderMode)
    requires
        graph_texts_escape_free(g),
        forall|i: int| 0 <= i < rels.len() ==> escape_free((#[trigger] rels[i]).to),
    ensures
        forall|k: int| 0 <= k < items_fold(g, rels, mode).len() ==> item_escape_free(#[trigger] items_fold(g, rels, mode)[k]),
    decreases rels.len(),
{
    if rels.len() > 0 {
        let before = items_fold(g, rels.drop_last(), mode);
        assert forall|i: int| 0 <= i < rels.drop_last().len() implies escape_free((#[trigger] rels.drop_last()[i]).to) by {
            assert(rels.drop_last()[i] == rels[i]);
        }
        lemma_items_fold_free(g, rels.drop_last(), mode);
        let rel = rels.last();
        assert(escape_free(rel.to)) by {
            assert(rel == rels[rels.len() - 1]);
        }
        reveal_strlit("systemd base units");
        lemma_name_or_id_free(g, rel.to);
        lemma_refs_in_free(g.relations, rel);
        let compact = crate::cli::plain::simplifies_graph(mode) && crate::cli::tree::low_signal_unit(g, rel);
        let label = if compact { "systemd base units"@ } else { name_or_id(g, rel.to) };
        let can_group = compact || crate::cli::tree::is_leaf(g, rel.to);
        let refs = refs_in(g.relations, rel);
        let after = items_fold(g, rels, mode);
        assert(after == add_item(g, before, rel, mode));
        match if can_group { find_item_from(before, rel.kind, label, 0) } else { None } {
            Some(k0) => {
                crate::cli::tree::lemma_find_item_in_range(before, rel.kind, label, 0);
                lemma_refs_concat_free(before[k0].refs, refs);
                assert forall|k: int| 0 <= k < after.len() implies item_escape_free(#[trigger] after[k]) by {
                    if k != k0 {
                        assert(after[k] == before[k]);
                    }
                }
            },
            None => {
                assert forall|k: int| 0 <= k < after.len() implies item_escape_free(#[trigger] after[k]) by {
                    if k < before.len() {
                        assert(after[k] == before[k]);
                    }
                }
            },
        }
    }
}

proof fn lemma_render_items_free(g: GraphView, id: Seq<char>, mode: PlainRenderMode)
    requires
        graph_texts_escape_free(g),
    ensures
        forall|k: int|
            0 <= k < render_items_spec(g, id, mode).len() ==> item_escape_free(#[trigger] render_items_spec(g, id, mode)[k]),
{
    broadcast use lemma_escape_free_add;
    let rels = crate::domain::graph::outgoing_of(g.relations, id);
    let pred = |r: RelationView| r.from == id;
    assert forall|i: int| 0 <= i < rels.len() implies escape_free((#[trigger] rels[i]).to) by {
        g.relations.lemma_filter_pred(pred, i);
        assert(rels.contains(rels[i]));
        g.relations.lemma_filter_contains_rev(pred, rels[i]);
        let j = choose|j: int| 0 <= j < g.relations.len() && g.relations[j] == rels[i];
        assert(escape_free(g.relations[j].to));
    }
    lemma_items_fold_free(g, rels, mode);
    let folded = items_fold(g, rels, mode);
    reveal_strlit(" (");
    reveal_strlit(")");
    assert forall|k: int| 0 <= k < render_items_spec(g, id, mode).len() implies item_escape_free(
        #[trigger] render_items_spec(g, id, mode)[k],
    ) by {
        assert(render_items_spec(g, id, mode)[k] == crate::cli::tree::finished_item(g, folded[k]));
        assert(item_escape_free(folded[k]));
        lemma_decimal_free(folded[k].count);
    }
}

proof fn lemma_tree_pieces_free(last: bool)
    ensures
        escape_free(branch(last)),
        escape_free(child_prefix(last)),
{
    reveal_strlit("\u{2514}\u{2500}\u{2500}");
    reveal_strlit("\u{251c}\u{2500}\u{2500}");
    reveal_strlit("    ");
    reveal_strlit("\u{2502}   ");
}

proof fn lemma_children_free(g: GraphView, id: Seq<char>, prefix: Seq<char>, mode: PlainRenderMode, fuel: nat)
    requires
        graph_texts_escape_free(g),
        escape_free(prefix),
    ensures
        lines_escape_free(children_lines(g, id, prefix, mode, false, fuel)),
    decreases fuel, 1nat, 0nat,
{
    if fuel > 0 {
        lemma_render_items_free(g, id, mode);
        lemma_lines_from_free(g, render_items_spec(g, id, mode), 0, prefix, mode, fuel);
    }
}

proof fn lemma_lines_from_free(
    g: GraphView,
    items: Seq<ItemView>,
    i: int,
    prefix: Seq<char>,
    mode: PlainRenderMode,
    fuel: nat,
)
    requires
        graph_texts_escape_free(g),
        escape_free(prefix),
        forall|k: int| 0 <= k < items.len() ==> item_escape_free(#[trigger] items[k]),
    ensures
        lines_escape_free(lines_from(g, items, i, prefix, mode, false, fuel)),
    decreases fuel, 0nat, items.len() - i,
{
    broadcast use lemma_escape_free_add, lemma_lines_escape_free_add;
    if !(i < 0 || i >= items.len() || fuel == 0) {
        let last = i + 1 == items.len();
        let it = items[i];
        assert(item_escape_free(it));
        lemma_tree_pieces_free(last);
        lemma_relation_kind_names_free(it.kind);
        lemma_marker_free(it.refs);
        reveal_strlit(" ");
        let line = item_line(it, prefix, last, false);
        assert(escape_free(line));
        assert(lines_escape_free(seq![line]));
        lemma_children_free(g, it.to, prefix + child_prefix(last), mode, (fuel - 1) as nat);
        lemma_lines_from_free(g, items, i + 1, prefix, mode, fuel);
    }
}

proof fn lemma_roots_free(g: GraphView, roots: Seq<Seq<char>>, mode: PlainRenderMode)
    requires
        graph_texts_escape_free(g),
    ensures
        lines_escape_free(roots_tree(g, roots, mode, false)),
    decreases roots.len(),
{
    broadcast use lemma_lines_escape_free_add;
    if roots.len() > 0 {
        lemma_roots_free(g, roots.drop_last(), mode);
        let id = roots.last();
        lemma_found_entity_free(g.entities, id);
        match find_entity(g.entities, id) {
            Some(e) => {
                assert(lines_escape_free(seq![e.name]));
                reveal_strlit("");
                lemma_children_free(g, id, Seq::empty(), mode, (g.relations.len() + 1) as nat);
            },
            None => {},
        }
    }
}

proof fn lemma_section_free(title: Seq<char>)
    requires
        escape_free(title),
    ensures
        lines_escape_free(section(title, false)),
{
    assert(escape_free(Seq::<char>::empty()));
}

proof fn lemma_pad_free(t: Seq<char>, width: nat)
    requires
        escape_free(t),
    ensures
        escape_free(pad_right(t, width)),
{
    broadcast use lemma_escape_free_add;
    if t.len() < width {
        let pad = Seq::new((width - t.len()) as nat, |i: int| ' ');
        assert(escape_free(pad));
    }
}

proof fn lemma_entry_lines_free(g: GraphView, rel: RelationView, evs: Seq<crate::domain::evidence::EvidenceView>, base: nat)
    requires
        graph_texts_escape_free(g),
        escape_free(rel.from),
        escape_free(rel.to),
        forall|j: int| 0 <= j < evs.len() ==> {
            let ev = #[trigger] evs[j];
            escape_free(ev.backend) && escape_free(ev.source) && escape_free(ev.description)
        },
    ensures
        lines_escape_free(crate::cli::plain::relation_entries(g, rel, evs, base)),
    decreases evs.len(),
{
    broadcast use lemma_escape_free_add, lemma_lines_escape_free_add;
    if evs.len() > 0 {
        assert forall|j: int| 0 <= j < evs.drop_last().len() implies {
            let ev = #[trigger] evs.drop_last()[j];
            escape_free(ev.backend) && escape_free(ev.source) && escape_free(ev.description)
        } by {
            assert(evs.drop_last()[j] == evs[j]);
        }
        lemma_entry_lines_free(g, rel, evs.drop_last(), base);
        let ev = evs.last();
        assert(ev == evs[evs.len() - 1]);
        reveal_strlit("  [");
        reveal_strlit("]");
        reveal_strlit("    Relation: ");
        reveal_strlit(" --");
        reveal_strlit("--> ");
        reveal_strlit("    Backend: ");
        reveal_strlit("    Source: ");
        reveal_strlit("    Confidence: ");
        reveal_strlit("    Description: ");
        reveal_strlit("e");
        lemma_decimal_free(base + evs.len());
        assert(escape_free(evidence_label(base + evs.len())));
        lemma_name_or_id_free(g, rel.from);
        lemma_name_or_id_free(g, rel.to);
        lemma_relation_kind_names_free(rel.kind);
        lemma_confidence_name_free(ev.confidence);
        let block = crate::cli::plain::entry_lines(
            evidence_label(base + evs.len()),
            name_or_id(g, rel.from),
            rel.kind,
            name_or_id(g, rel.to),
            ev,
        );
        assert(lines_escape_free(block)) by {
            assert forall|k: int| 0 <= k < block.len() implies escape_free(#[trigger] block[k]) by {
                if k >= 5 {
                    assert(block[k] == "    Description: "@ + ev.description);
                }
            }
        }
    }
}

proof fn lemma_evidence_entries_free(g: GraphView, rels: Seq<RelationView>)
    requires
        graph_texts_escape_free(g),
        forall|i: int| 0 <= i < rels.len() ==> g.relations.contains(#[trigger] rels[i]),
    ensures
        lines_escape_free(evidence_entries(g, rels)),
    decreases rels.len(),
{
    broadcast use lemma_lines_escape_free_add;
    if rels.len() > 0 {
        assert forall|i: int| 0 <= i < rels.drop_last().len() implies g.relations.contains(#[trigger] rels.drop_last()[i]) by {
            assert(rels.drop_last()[i] == rels[i]);
        }
        lemma_evidence_entries_free(g, rels.drop_last());
        let rel = rels.last();
        assert(g.relations.contains(rels[rels.len() - 1]));
        let j = choose|j: int| 0 <= j < g.relations.len() && g.relations[j] == rel;
        assert(g.relations[j] == rel);
        lemma_entry_lines_free(g, rel, rel.evidence, evidence_total(rels.drop_last()));
    }
}

proof fn lemma_entity_details_free(es: Seq<EntityView>)
    requires
        forall|i: int| 0 <= i < es.len() ==> {
            let e = #[trigger] es[i];
            &&& escape_free(e.id)
            &&& escape_free(e.name)
            &&& forall|j: int| 0 <= j < e.metadata.len() ==> escape_free(#[trigger] e.metadata[j].0) && escape_free(e.metadata[j].1)
        },
    ensures
        lines_escape_free(entity_details(es)),
    decreases es.len(),
{
    broadcast use lemma_escape_free_add, lemma_lines_escape_free_add;
    if es.len() > 0 {
        assert forall|i: int| 0 <= i < es.drop_last().len() implies {
            let e = #[trigger] es.drop_last()[i];
            &&& escape_free(e.id)
            &&& escape_free(e.name)
            &&& forall|j: int| 0 <= j < e.metadata.len() ==> escape_free(#[trigger] e.metadata[j].0) && escape_free(e.metadata[j].1)
        } by {
            assert(es.drop_last()[i] == es[i]);
        }
        lemma_entity_details_free(es.drop_last());
        let e = es.last();
        assert(e == es[es.len() - 1]);
        reveal_strlit("    ");
        reveal_strlit(" | ");
        reveal_strlit("      ");
        reveal_strlit(": ");
        lemma_entity_kind_name_free(e.kind);
        let first = "    "@ + e.id + " | "@ + entity_kind_name(e.kind) + " | "@ + e.name;
        assert(lines_escape_free(seq![first]));
        let meta = e.metadata.map_values(|kv: (Seq<char>, Seq<char>)| crate::cli::plain::metadata_line(kv));
        assert forall|k: int| 0 <= k < meta.len() implies escape_free(#[trigger] meta[k]) by {
            assert(escape_free(e.metadata[k].0) && escape_free(e.metadata[k].1));
        }
        assert(crate::cli::plain::entity_detail(e) == seq![first] + meta);
    }
}

proof fn lemma_plain_lines_free(inv: InvestigationView, mode: PlainRenderMode)
    requires
        texts_escape_free(inv),
    ensures
        lines_escape_free(plain_lines(inv, mode, false)),
{
    broadcast use lemma_escape_free_add, lemma_lines_escape_free_add;
    let g = inv.graph;
    lemma_query_texts_free(inv.query);
    reveal_strlit("Query");
    reveal_strlit("  ");
    reveal_strlit("  interpreted as ");
    assert(lines_escape_free(query_lines(inv, false)));

    reveal_strlit("Answer");
    lemma_section_free("Answer"@);
    assert(lines_escape_free(seq!["  "@ + inv.answer]));
    assert(lines_escape_free(answer_lines(inv, false)));

    reveal_strlit("Matches");
    reveal_strlit(">");
    reveal_strlit(" ");
    lemma_section_free("Matches"@);
    if inv.matches.len() > 0 {
        let ml = Seq::new(inv.matches.len(), |i: int| match_line(g, i, inv.matches[i], false));
        assert forall|i: int| 0 <= i < ml.len() implies escape_free(#[trigger] ml[i]) by {
            let id = inv.matches[i];
            assert(escape_free(id));
            lemma_found_entity_free(g.entities, id);
            if let Some(e) = find_entity(g.entities, id) {
                lemma_entity_kind_name_free(e.kind);
                lemma_pad_free(entity_kind_name(e.kind), 11);
            }
        }
    }
    assert(lines_escape_free(match_lines(inv, false)));

    reveal_strlit("Main chain");
    lemma_section_free("Main chain"@);
    lemma_roots_free(g, why_roots(inv.matches, g), mode);
    assert(lines_escape_free(why_lines(inv, mode, false)));

    reveal_strlit("Evidence");
    lemma_section_free("Evidence"@);
    lemma_evidence_entries_free(g, g.relations);
    assert(lines_escape_free(evidence_lines(inv, mode, false)));

    reveal_strlit("Graph");
    reveal_strlit("  Entities:");
    reveal_strlit("  Relations:");
    reveal_strlit("    ");
    reveal_strlit(" --");
    reveal_strlit("--> ");
    reveal_strlit(" | ");
    lemma_section_free("Graph"@);
    lemma_entity_details_free(g.entities);
    let rl = g.relations.map_values(|r: RelationView| relation_detail(r));
    assert forall|k: int| 0 <= k < rl.len() implies escape_free(#[trigger] rl[k]) by {
        let r = g.relations[k];
        lemma_relation_kind_names_free(r.kind);
        lemma_confidence_name_free(r.confidence);
    }
    assert(lines_escape_free(seq!["  Entities:"@]));
    assert(lines_escape_free(seq!["  Relations:"@]));
    assert(lines_escape_free(graph_lines(inv, mode, false)));

    reveal_strlit("Incomplete");
    lemma_section_free("Incomplete"@);
    let il = inv.incomplete.map_values(|m: Seq<char>| "  "@ + m);
    assert forall|k: int| 0 <= k < il.len() implies escape_free(#[trigger] il[k]) by {
        assert(escape_free(inv.incomplete[k]));
    }
    assert(lines_escape_free(incomplete_lines(inv, false)));

    reveal_strlit("Backend status");
    lemma_section_free("Backend status"@);
    let bl = inv.backend_status.map_values(|st: BackendStatusView| status_line(st, name_width(inv.backend_status)));
    assert forall|k: int| 0 <= k < bl.len() implies escape_free(#[trigger] bl[k]) by {
        let st = inv.backend_status[k];
        lemma_pad_free(st.backend, name_width(inv.backend_status));
    }
    assert(lines_escape_free(backend_lines(inv, false)));

    reveal_strlit("Debug");
    reveal_strlit("  Query kind: ");
    reveal_strlit("  Entity count: ");
    reveal_strlit("  Relation count: ");
    reveal_strlit("  Match count: ");
    reveal_strlit("  Incomplete count: ");
    lemma_section_free("Debug"@);
    lemma_decimal_free(g.entities.len());
    lemma_decimal_free(g.relations.len());
    lemma_decimal_free(inv.matches.len());
    lemma_decimal_free(inv.incomplete.len());
    let dl = seq![
        "  Query kind: "@ + query_kind(inv.query),
        "  Entity count: "@ + decimal(g.entities.len()),
        "  Relation count: "@ + decimal(g.relations.len()),
        "  Match count: "@ + decimal(inv.matches.len()),
        "  Incomplete count: "@ + decimal(inv.incomplete.len()),
    ];
    assert forall|k: int| 0 <= k < dl.len() implies escape_free(#[trigger] dl[k]) by {}
    assert(lines_escape_free(debug_lines(inv, mode, false)));
}

proof fn lemma_concat_lines_free(lines: Seq<Seq<char>>)
    requires
        lines_escape_free(lines),
    ensures
        escape_free(concat_lines(lines)),
    decreases lines.len(),
{
    broadcast use lemma_escape_free_add;
    if lines.len() > 0 {
        assert forall|i: int| 0 <= i < lines.drop_last().len() implies escape_free(#[trigger] lines.drop_last()[i]) by {
            assert(lines.drop_last()[i] == lines[i]);
        }
        lemma_concat_lines_free(lines.drop_last());
        assert(escape_free(lines.last())) by {
            assert(lines.last() == lines[lines.len() - 1]);
        }
        reveal_strlit("\n");
    } else {
        assert(escape_free(Seq::<char>::empty()));
    }
}

/// Where no text of the investigation that the plain output shows holds an
/// escape character, neither does the plain output without colour.
pub proof fn law_escape_free_texts_give_escape_free_output(inv: InvestigationView, mode: PlainRenderMode)
    requires
        texts_escape_free(inv),
    ensures
        escape_free(plain_text(inv, mode, false)),
{
    lemma_plain_lines_free(inv, mode);
    lemma_concat_lines_free(plain_lines(inv, mode, false));
}

} // verus!
