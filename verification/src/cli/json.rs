use vstd::prelude::*;
use crate::backend::{state_display, BackendStatus, BackendStatusView};
use crate::domain::confidence::confidence_name;
use crate::domain::entity::{entity_kind_name, Entity, EntityView};
use crate::domain::query::{query_kind, query_value};
use crate::domain::relation::{relation_kind_name, Relation, RelationView};
use crate::domain::scan::{join, join_strings, occurs_at, views};
use crate::domain::text::{chars_of, owned, push_char};
use crate::engine::{Investigation, InvestigationView};

verus! {

// ---------------------------------------------------------------------------
// JSON strings
// ---------------------------------------------------------------------------

/// Whether `c` is a control character (general category `Cc`), as
/// `char::is_control` decides it.
pub open spec fn is_control(c: char) -> bool {
    (c as u32) < 0x20 || (0x7f <= (c as u32) && (c as u32) < 0xa0)
}

/// A lower-case hexadecimal digit.
pub open spec fn hex_digit(d: nat) -> char {
    if d < 10 {
        (48 + d) as char
    } else {
        (87 + d) as char
    }
}

/// The four lower-case hexadecimal digits of `n`, as `{:04x}` writes a
/// number below `0x10000`.
pub open spec fn hex4(n: nat) -> Seq<char> {
    seq![hex_digit((n / 4096) % 16), hex_digit((n / 256) % 16), hex_digit((n / 16) % 16), hex_digit(n % 16)]
}

/// How one character is written inside a JSON string.
pub open spec fn escape_char(c: char) -> Seq<char> {
    if c == '"' {
        seq!['\\', '"']
    } else if c == '\\' {
        seq!['\\', '\\']
    } else if c == '\n' {
        seq!['\\', 'n']
    } else if c == '\r' {
        seq!['\\', 'r']
    } else if c == '\t' {
        seq!['\\', 't']
    } else if is_control(c) {
        seq!['\\', 'u'] + hex4(c as nat)
    } else {
        seq![c]
    }
}

/// The characters of `s`, each escaped.
pub open spec fn json_escape(s: Seq<char>) -> Seq<char>
    decreases s.len(),
{
    if s.len() == 0 {
        Seq::empty()
    } else {
        json_escape(s.drop_last()) + escape_char(s.last())
    }
}

/// `s` as a JSON string literal.
pub open spec fn json_text(s: Seq<char>) -> Seq<char> {
    seq!['"'] + json_escape(s) + seq!['"']
}

fn hex_char(d: u32) -> (c: char)
    requires
        d < 16,
    ensures
        c == hex_digit(d as nat),
{
    match d {
        0 => '0',
        1 => '1',
        2 => '2',
        3 => '3',
        4 => '4',
        5 => '5',
        6 => '6',
        7 => '7',
        8 => '8',
        9 => '9',
        10 => 'a',
        11 => 'b',
        12 => 'c',
        13 => 'd',
        14 => 'e',
        _ => 'f',
    }
}

fn push_escaped(out: &mut String, c: char)
    ensures
        final(out)@ == old(out)@ + escape_char(c),
{
    if c == '"' {
        out.append("\\\"");
    } else if c == '\\' {
        out.append("\\\\");
    } else if c == '\n' {
        out.append("\\n");
    } else if c == '\r' {
        out.append("\\r");
    } else if c == '\t' {
        out.append("\\t");
    } else if (c as u32) < 0x20 || (0x7f <= (c as u32) && (c as u32) < 0xa0) {
        let n = c as u32;
        out.append("\\u");
        push_char(out, hex_char((n / 4096) % 16));
        push_char(out, hex_char((n / 256) % 16));
        push_char(out, hex_char((n / 16) % 16));
        push_char(out, hex_char(n % 16));
    } else {
        push_char(out, c);
    }
    proof {
        reveal_strlit("\\\"");
        reveal_strlit("\\\\");
        reveal_strlit("\\n");
        reveal_strlit("\\r");
        reveal_strlit("\\t");
        reveal_strlit("\\u");
    }
    assert(final(out)@ =~= old(out)@ + escape_char(c));
}

/// Writes `value` as a JSON string literal.
pub fn json_string(value: &str) -> (r: String)
    ensures
        r@ == json_text(value@),
{
    let chars = chars_of(value);
    let mut escaped = owned("\"");
    proof {
        reveal_strlit("\"");
    }
    let mut i: usize = 0;
    while i < chars.len()
        invariant
            i <= chars.len(),
            chars@ == value@,
            escaped@ == seq!['"'] + json_escape(value@.take(i as int)),
        decreases chars.len() - i,
    {
        assert(value@.take(i + 1).drop_last() =~= value@.take(i as int));
        push_escaped(&mut escaped, chars[i]);
        assert(escaped@ =~= seq!['"'] + json_escape(value@.take(i + 1)));
        i += 1;
    }
    assert(value@.take(chars.len() as int) =~= value@);
    push_char(&mut escaped, '"');
    assert(escaped@ =~= json_text(value@));
    escaped
}

// ---------------------------------------------------------------------------
// The document
// ---------------------------------------------------------------------------

/// A JSON array of already written items, one per line.
pub open spec fn json_list(items: Seq<Seq<char>>) -> Seq<char> {
    if items.len() == 0 {
        Seq::empty()
    } else {
        "\n"@ + join(items, ",\n"@) + "\n  "@
    }
}

/// How an entity is written.
pub open spec fn entity_json(e: EntityView) -> Seq<char> {
    "    {\n      \"id\": "@ + json_text(e.id) + ",\n      \"kind\": "@ + json_text(entity_kind_name(e.kind))
        + ",\n      \"name\": "@ + json_text(e.name) + "\n    }"@
}

/// How a relation is written.
pub open spec fn relation_json(r: RelationView) -> Seq<char> {
    "    {\n      \"from\": "@ + json_text(r.from) + ",\n      \"to\": "@ + json_text(r.to) + ",\n      \"kind\": "@
        + json_text(relation_kind_name(r.kind)) + ",\n      \"confidence\": "@ + json_text(confidence_name(r.confidence))
        + "\n    }"@
}

/// How a gap is written.
pub open spec fn incomplete_json(m: Seq<char>) -> Seq<char> {
    "    "@ + json_text(m)
}

/// How a backend status is written.
pub open spec fn status_json(s: BackendStatusView) -> Seq<char> {
    "    {\n      \"backend\": "@ + json_text(s.backend) + ",\n      \"status\": "@ + json_text(state_display(s.state))
        + "\n    }"@
}

/// The JSON document of an investigation.
pub open spec fn investigation_json(inv: InvestigationView) -> Seq<char> {
    "{\n  \"query\": {\n    \"kind\": "@ + json_text(query_kind(inv.query)) + ",\n    \"value\": "@
        + json_text(query_value(inv.query)) + "\n  },\n  \"entities\": ["@
        + json_list(inv.graph.entities.map_values(|e: EntityView| entity_json(e))) + "],\n  \"relations\": ["@
        + json_list(inv.graph.relations.map_values(|r: RelationView| relation_json(r))) + "],\n  \"incomplete\": ["@
        + json_list(inv.incomplete.map_values(|m: Seq<char>| incomplete_json(m))) + "],\n  \"backend_status\": ["@
        + json_list(inv.backend_status.map_values(|s: BackendStatusView| status_json(s))) + "]\n}\n"@
}

fn entity_item(e: &Entity) -> (r: String)
    ensures
        r@ == entity_json(e@),
{
    let mut r = owned("    {\n      \"id\": ");
    r.append(json_string(e.id.as_str()).as_str());
    r.append(",\n      \"kind\": ");
    r.append(json_string(e.kind.as_str()).as_str());
    r.append(",\n      \"name\": ");
    r.append(json_string(e.name.as_str()).as_str());
    r.append("\n    }");
    r
}

fn relation_item(rel: &Relation) -> (r: String)
    ensures
        r@ == relation_json(rel@),
{
    let mut r = owned("    {\n      \"from\": ");
    r.append(json_string(rel.from.as_str()).as_str());
    r.append(",\n      \"to\": ");
    r.append(json_string(rel.to.as_str()).as_str());
    r.append(",\n      \"kind\": ");
    r.append(json_string(rel.kind.as_str()).as_str());
    r.append(",\n      \"confidence\": ");
    r.append(json_string(rel.confidence.as_str()).as_str());
    r.append("\n    }");
    r
}

fn status_item(s: &BackendStatus) -> (r: String)
    ensures
        r@ == status_json(s@),
{
    let mut r = owned("    {\n      \"backend\": ");
    r.append(json_string(s.backend.as_str()).as_str());
    r.append(",\n      \"status\": ");
    r.append(json_string(s.state.as_display()).as_str());
    r.append("\n    }");
    r
}

fn push_list(out: &mut String, items: &Vec<String>)
    ensures
        final(out)@ == old(out)@ + json_list(views(items@)),
{
    if items.len() > 0 {
        out.append("\n");
        out.append(join_strings(items, ",\n").as_str());
        out.append("\n  ");
    }
}

/// Writes an investigation as a JSON document.
pub fn render(investigation: &Investigation) -> (r: String)
    ensures
        r@ == investigation_json(investigation@),
{
    let ghost inv = investigation@;
    let graph = &investigation.graph;

    let mut entities: Vec<String> = Vec::new();
    let mut i: usize = 0;
    while i < graph.entity_count()
        invariant
            i <= graph@.entities.len(),
            views(entities@) == graph@.entities.take(i as int).map_values(|e: EntityView| entity_json(e)),
        decreases graph@.entities.len() - i,
    {
        let ghost before = views(entities@);
        let item = entity_item(graph.entity_at(i));
        entities.push(item);
        assert(views(entities@) =~= before.push(item@));
        assert(graph@.entities.take(i + 1) =~= graph@.entities.take(i as int).push(graph@.entities[i as int]));
        assert(views(entities@) =~= graph@.entities.take(i + 1).map_values(|e: EntityView| entity_json(e)));
        i += 1;
    }
    assert(graph@.entities.take(i as int) =~= graph@.entities);

    let mut relations: Vec<String> = Vec::new();
    let mut i: usize = 0;
    while i < graph.relation_count()
        invariant
            i <= graph@.relations.len(),
            views(relations@) == graph@.relations.take(i as int).map_values(|r: RelationView| relation_json(r)),
        decreases graph@.relations.len() - i,
    {
        let ghost before = views(relations@);
        let item = relation_item(graph.relation_at(i));
        relations.push(item);
        assert(views(relations@) =~= before.push(item@));
        assert(graph@.relations.take(i + 1) =~= graph@.relations.take(i as int).push(graph@.relations[i as int]));
        assert(views(relations@) =~= graph@.relations.take(i + 1).map_values(|r: RelationView| relation_json(r)));
        i += 1;
    }
    assert(graph@.relations.take(i as int) =~= graph@.relations);

    let mut incomplete: Vec<String> = Vec::new();
    let mut i: usize = 0;
    while i < investigation.incomplete.len()
        invariant
            i <= inv.incomplete.len(),
            inv == investigation@,
            views(incomplete@) == inv.incomplete.take(i as int).map_values(|m: Seq<char>| incomplete_json(m)),
        decreases inv.incomplete.len() - i,
    {
        let mut item = owned("    ");
        item.append(json_string(investigation.incomplete[i].as_str()).as_str());
        let ghost before = views(incomplete@);
        incomplete.push(item);
        assert(views(incomplete@) =~= before.push(item@));
        assert(inv.incomplete[i as int] == investigation.incomplete@[i as int]@);
        assert(inv.incomplete.take(i + 1) =~= inv.incomplete.take(i as int).push(inv.incomplete[i as int]));
        assert(views(incomplete@) =~= inv.incomplete.take(i + 1).map_values(|m: Seq<char>| incomplete_json(m)));
        i += 1;
    }
    assert(inv.incomplete.take(i as int) =~= inv.incomplete);

    let mut statuses: Vec<String> = Vec::new();
    let mut i: usize = 0;
    while i < investigation.backend_status.len()
        invariant
            i <= inv.backend_status.len(),
            inv == investigation@,
            views(statuses@) == inv.backend_status.take(i as int).map_values(|s: BackendStatusView| status_json(s)),
        decreases inv.backend_status.len() - i,
    {
        let item = status_item(&investigation.backend_status[i]);
        let ghost before = views(statuses@);
        statuses.push(item);
        assert(views(statuses@) =~= before.push(item@));
        assert(inv.backend_status[i as int] == investigation.backend_status@[i as int]@);
        assert(inv.backend_status.take(i + 1) =~= inv.backend_status.take(i as int).push(inv.backend_status[i as int]));
        assert(views(statuses@) =~= inv.backend_status.take(i + 1).map_values(|s: BackendStatusView| status_json(s)));
        i += 1;
    }
    assert(inv.backend_status.take(i as int) =~= inv.backend_status);

    let mut output = owned("{\n  \"query\": {\n    \"kind\": ");
    output.append(json_string(investigation.query.kind()).as_str());
    output.append(",\n    \"value\": ");
    output.append(json_string(investigation.query.value().as_str()).as_str());
    output.append("\n  },\n  \"entities\": [");
    push_list(&mut output, &entities);
    output.append("],\n  \"relations\": [");
    push_list(&mut output, &relations);
    output.append("],\n  \"incomplete\": [");
    push_list(&mut output, &incomplete);
    output.append("],\n  \"backend_status\": [");
    push_list(&mut output, &statuses);
    output.append("]\n}\n");
    output
}

// ---------------------------------------------------------------------------
// What escaping keeps out
// ---------------------------------------------------------------------------

proof fn lemma_hex_digit_clean(d: nat)
    requires
        d < 16,
    ensures
        !is_control(hex_digit(d)),
{
    if d < 10 {
        assert(((48 + d) as char) as u32 == 48 + d);
    } else {
        assert(((87 + d) as char) as u32 == 87 + d);
    }
}

proof fn lemma_escape_char_clean(c: char)
    ensures
        forall|i: int| 0 <= i < escape_char(c).len() ==> !is_control(#[trigger] escape_char(c)[i]),
{
    if c != '"' && c != '\\' && c != '\n' && c != '\r' && c != '\t' && is_control(c) {
        let n = c as nat;
        lemma_hex_digit_clean((n / 4096) % 16);
        lemma_hex_digit_clean((n / 256) % 16);
        lemma_hex_digit_clean((n / 16) % 16);
        lemma_hex_digit_clean(n % 16);
        let e = escape_char(c);
        assert(e == seq!['\\', 'u'] + hex4(n));
        assert forall|i: int| 0 <= i < e.len() implies !is_control(#[trigger] e[i]) by {
            if i >= 2 {
                assert(e[i] == hex4(n)[i - 2]);
            }
        }
    }
}

proof fn lemma_escape_clean(s: Seq<char>)
    ensures
        forall|i: int| 0 <= i < json_escape(s).len() ==> !is_control(#[trigger] json_escape(s)[i]),
    decreases s.len(),
{
    if s.len() > 0 {
        lemma_escape_clean(s.drop_last());
        lemma_escape_char_clean(s.last());
        let a = json_escape(s.drop_last());
        let b = escape_char(s.last());
        assert forall|i: int| 0 <= i < json_escape(s).len() implies !is_control(#[trigger] json_escape(s)[i]) by {
            if i < a.len() {
                assert(json_escape(s)[i] == a[i]);
            } else {
                assert(json_escape(s)[i] == b[i - a.len()]);
            }
        }
    }
}

/// A JSON string literal holds no control character, whatever the text:
/// each one is written as an escape sequence.
pub proof fn law_json_text_has_no_control_character(s: Seq<char>)
    ensures
        forall|i: int| 0 <= i < json_text(s).len() ==> !is_control(#[trigger] json_text(s)[i]),
{
    lemma_escape_clean(s);
    let t = json_text(s);
    let e = json_escape(s);
    assert forall|i: int| 0 <= i < t.len() implies !is_control(#[trigger] t[i]) by {
        if 1 <= i < t.len() - 1 {
            assert(t[i] == e[i - 1]);
        }
    }
}

// ---------------------------------------------------------------------------
// Reading JSON strings back
// ---------------------------------------------------------------------------

/// The value of a hexadecimal digit, in either case.
pub open spec fn hex_value(c: char) -> Option<nat> {
    if '0' <= c <= '9' {
        Some((c as nat - 48) as nat)
    } else if 'a' <= c <= 'f' {
        Some((c as nat - 87) as nat)
    } else if 'A' <= c <= 'F' {
        Some((c as nat - 55) as nat)
    } else {
        None
    }
}

/// `c` in front of the text `rest`, where there is one.
pub open spec fn prepend(c: char, rest: Option<Seq<char>>) -> Option<Seq<char>> {
    match rest {
        Some(r) => Some(seq![c] + r),
        None => None,
    }
}

/// The character that a two-character escape sequence `\e` stands for.
pub open spec fn short_escape(e: char) -> Option<char> {
    if e == '"' {
        Some('"')
    } else if e == '\\' {
        Some('\\')
    } else if e == '/' {
        Some('/')
    } else if e == 'b' {
        Some('\u{8}')
    } else if e == 'f' {
        Some('\u{c}')
    } else if e == 'n' {
        Some('\n')
    } else if e == 'r' {
        Some('\r')
    } else if e == 't' {
        Some('\t')
    } else {
        None
    }
}

/// The text that the body of a JSON string literal stands for, as RFC 8259
/// reads it, or `None` where the body is not valid: an unescaped quote or
/// control character, an unknown escape, or a `\u` escape of a lone
/// surrogate (pairs of surrogates are not read).
pub open spec fn json_unescape(t: Seq<char>) -> Option<Seq<char>>
    decreases t.len(),
{
    if t.len() == 0 {
        Some(Seq::empty())
    } else if t[0] == '\\' {
        if t.len() < 2 {
            None
        } else {
            match short_escape(t[1]) {
                Some(c) => prepend(c, json_unescape(t.skip(2))),
                None => if t[1] == 'u' && t.len() >= 6 {
                    match (hex_value(t[2]), hex_value(t[3]), hex_value(t[4]), hex_value(t[5])) {
                        (Some(a), Some(b), Some(c), Some(d)) => {
                            let v = a * 4096 + b * 256 + c * 16 + d;
                            if 0xd800 <= v < 0xe000 {
                                None
                            } else {
                                prepend(v as char, json_unescape(t.skip(6)))
                            }
                        },
                        _ => None,
                    }
                } else {
                    None
                },
            }
        }
    } else if t[0] == '"' || (t[0] as u32) < 0x20 {
        None
    } else {
        prepend(t[0], json_unescape(t.drop_first()))
    }
}

/// The text that a JSON string literal stands for, or `None` where `t` is
/// not one string literal.
pub open spec fn json_string_value(t: Seq<char>) -> Option<Seq<char>> {
    if t.len() >= 2 && t[0] == '"' && t.last() == '"' {
        json_unescape(t.subrange(1, t.len() - 1))
    } else {
        None
    }
}

proof fn lemma_escape_front(c: char, s: Seq<char>)
    ensures
        json_escape(seq![c] + s) == escape_char(c) + json_escape(s),
    decreases s.len(),
{
    if s.len() == 0 {
        assert(seq![c] + s =~= seq![c]);
        assert(seq![c].drop_last() =~= Seq::<char>::empty());
        assert(seq![c].last() == c);
        assert(json_escape(Seq::<char>::empty()) == Seq::<char>::empty());
        assert(json_escape(seq![c]) =~= json_escape(Seq::<char>::empty()) + escape_char(c));
    } else {
        lemma_escape_front(c, s.drop_last());
        assert((seq![c] + s).drop_last() =~= seq![c] + s.drop_last());
        assert((seq![c] + s).last() == s.last());
        assert(json_escape(seq![c] + s) =~= escape_char(c) + json_escape(s));
    }
}

proof fn lemma_hex_digit_value(d: nat)
    requires
        d < 16,
    ensures
        hex_value(hex_digit(d)) == Some(d),
{
}

proof fn lemma_unescape_char(c: char, rest: Seq<char>)
    ensures
        json_unescape(escape_char(c) + rest) == prepend(c, json_unescape(rest)),
{
    let t = escape_char(c) + rest;
    if c == '"' || c == '\\' || c == '\n' || c == '\r' || c == '\t' {
        assert(t[0] == '\\');
        assert(t.skip(2) =~= rest);
    } else if is_control(c) {
        let n = c as nat;
        assert(n < 0xa0);
        lemma_hex_digit_value((n / 4096) % 16);
        lemma_hex_digit_value((n / 256) % 16);
        lemma_hex_digit_value((n / 16) % 16);
        lemma_hex_digit_value(n % 16);
        assert(t[0] == '\\');
        assert(t[1] == 'u');
        assert(t[2] == hex4(n)[0] && t[3] == hex4(n)[1] && t[4] == hex4(n)[2] && t[5] == hex4(n)[3]);
        assert(short_escape('u') is None);
        assert((n / 4096) % 16 == 0 && (n / 256) % 16 == 0);
        assert((n / 16) % 16 * 16 + n % 16 == n);
        assert(t.skip(6) =~= rest);
        assert((n as char) == c);
    } else {
        assert(escape_char(c) == seq![c]);
        assert(t[0] == c);
        assert(t.drop_first() =~= rest);
    }
}

proof fn lemma_unescape_escape(s: Seq<char>)
    ensures
        json_unescape(json_escape(s)) == Some(s),
    decreases s.len(),
{
    if s.len() > 0 {
        let rest = s.drop_first();
        assert(s =~= seq![s[0]] + rest);
        lemma_escape_front(s[0], rest);
        lemma_unescape_escape(rest);
        lemma_unescape_char(s[0], json_escape(rest));
    } else {
        assert(json_escape(s) =~= Seq::<char>::empty());
    }
}

/// A JSON string literal reads back as the text it was written from: its
/// first and last characters are quotes, and decoding it as JSON gives the
/// text.
pub proof fn law_json_text_reads_back(s: Seq<char>)
    ensures
        json_text(s)[0] == '"',
        json_text(s).last() == '"',
        json_string_value(json_text(s)) == Some(s),
{
    let t = json_text(s);
    assert(t.subrange(1, t.len() - 1) =~= json_escape(s));
    lemma_unescape_escape(s);
}

// ---------------------------------------------------------------------------
// What the document holds
// ---------------------------------------------------------------------------

/// Whether `p` occurs somewhere in `s`.
pub open spec fn occurs_in(s: Seq<char>, p: Seq<char>) -> bool {
    exists|o: int| occurs_at(s, p, o)
}

/// What occurs in a text occurs in any text that starts with it.
pub broadcast proof fn lemma_occurs_in_front(a: Seq<char>, b: Seq<char>, p: Seq<char>)
    requires
        occurs_in(a, p),
    ensures
        #[trigger] occurs_in(a + b, p),
{
    let o = choose|o: int| occurs_at(a, p, o);
    assert((a + b).subrange(o, o + p.len()) =~= a.subrange(o, o + p.len()));
    assert(occurs_at(a + b, p, o));
}

/// What occurs in a text occurs in any text that ends with it.
pub broadcast proof fn lemma_occurs_in_back(a: Seq<char>, b: Seq<char>, p: Seq<char>)
    requires
        occurs_in(b, p),
    ensures
        #[trigger] occurs_in(a + b, p),
{
    let o = choose|o: int| occurs_at(b, p, o);
    assert((a + b).subrange(a.len() + o, a.len() + o + p.len()) =~= b.subrange(o, o + p.len()));
    assert(occurs_at(a + b, p, a.len() + o));
}

proof fn lemma_occurs_in_itself(p: Seq<char>)
    ensures
        occurs_in(p, p),
{
    assert(p.subrange(0, p.len() as int) =~= p);
    assert(occurs_at(p, p, 0));
}

proof fn lemma_occurs_in_join(items: Seq<Seq<char>>, sep: Seq<char>, k: int, p: Seq<char>)
    requires
        0 <= k < items.len(),
        occurs_in(items[k], p),
    ensures
        occurs_in(join(items, sep), p),
    decreases items.len(),
{
    broadcast use lemma_occurs_in_front, lemma_occurs_in_back;
    if items.len() > 1 {
        if k < items.len() - 1 {
            assert(items.drop_last()[k] == items[k]);
            lemma_occurs_in_join(items.drop_last(), sep, k, p);
            assert(occurs_in(join(items.drop_last(), sep) + sep, p));
        } else {
            assert(items.last() == items[k]);
        }
    }
}

proof fn lemma_occurs_in_list(items: Seq<Seq<char>>, k: int, p: Seq<char>)
    requires
        0 <= k < items.len(),
        occurs_in(items[k], p),
    ensures
        occurs_in(json_list(items), p),
{
    broadcast use lemma_occurs_in_front, lemma_occurs_in_back;
    lemma_occurs_in_join(items, ",\n"@, k, p);
    assert(occurs_in("\n"@ + join(items, ",\n"@), p));
}

/// Every gap is written as a JSON string literal of its message, which
/// reads back, by RFC 8259, as the message: the document holds
/// `json_text(m)` for each message `m` of the incomplete list.
pub proof fn law_gaps_are_json_strings(inv: InvestigationView, k: int)
    requires
        0 <= k < inv.incomplete.len(),
    ensures
        occurs_in(investigation_json(inv), json_text(inv.incomplete[k])),
        json_string_value(json_text(inv.incomplete[k])) == Some(inv.incomplete[k]),
{
    broadcast use lemma_occurs_in_front, lemma_occurs_in_back;
    let m = inv.incomplete[k];
    let items = inv.incomplete.map_values(|x: Seq<char>| incomplete_json(x));
    lemma_occurs_in_itself(json_text(m));
    assert(occurs_in(incomplete_json(m), json_text(m)));
    assert(items[k] == incomplete_json(m));
    lemma_occurs_in_list(items, k, json_text(m));
    assert(occurs_in(investigation_json(inv), json_text(m)));
    law_json_text_reads_back(m);
}

/// Every text of the investigation that the document carries is written
/// as a JSON string literal of that text: the query's kind and value, each
/// entity's identifier, kind and name, each relation's ends, kind and
/// confidence, each gap, and each backend's name and status.
pub proof fn law_document_texts_are_json_strings(inv: InvestigationView)
    ensures
        occurs_in(investigation_json(inv), json_text(query_kind(inv.query))),
        occurs_in(investigation_json(inv), json_text(query_value(inv.query))),
        forall|k: int| 0 <= k < inv.graph.entities.len() ==> {
            let e = #[trigger] inv.graph.entities[k];
            &&& occurs_in(investigation_json(inv), json_text(e.id))
            &&& occurs_in(investigation_json(inv), json_text(entity_kind_name(e.kind)))
            &&& occurs_in(investigation_json(inv), json_text(e.name))
        },
        forall|k: int| 0 <= k < inv.graph.relations.len() ==> {
            let r = #[trigger] inv.graph.relations[k];
            &&& occurs_in(investigation_json(inv), json_text(r.from))
            &&& occurs_in(investigation_json(inv), json_text(r.to))
            &&& occurs_in(investigation_json(inv), json_text(relation_kind_name(r.kind)))
            &&& occurs_in(investigation_json(inv), json_text(confidence_name(r.confidence)))
        },
        forall|k: int| 0 <= k < inv.incomplete.len() ==> occurs_in(investigation_json(inv), json_text(#[trigger] inv.incomplete[k])),
        forall|k: int| 0 <= k < inv.backend_status.len() ==> {
            let st = #[trigger] inv.backend_status[k];
            &&& occurs_in(investigation_json(inv), json_text(st.backend))
            &&& occurs_in(investigation_json(inv), json_text(state_display(st.state)))
        },
{
    broadcast use lemma_occurs_in_front, lemma_occurs_in_back;
    let doc = investigation_json(inv);
    lemma_occurs_in_itself(json_text(query_kind(inv.query)));
    lemma_occurs_in_itself(json_text(query_value(inv.query)));
    let es = inv.graph.entities.map_values(|e: EntityView| entity_json(e));
    assert forall|k: int| 0 <= k < inv.graph.entities.len() implies {
        let e = #[trigger] inv.graph.entities[k];
        &&& occurs_in(doc, json_text(e.id))
        &&& occurs_in(doc, json_text(entity_kind_name(e.kind)))
        &&& occurs_in(doc, json_text(e.name))
    } by {
        let e = inv.graph.entities[k];
        assert(es[k] == entity_json(e));
        lemma_occurs_in_itself(json_text(e.id));
        lemma_occurs_in_itself(json_text(entity_kind_name(e.kind)));
        lemma_occurs_in_itself(json_text(e.name));
        assert(occurs_in(entity_json(e), json_text(e.id)));
        assert(occurs_in(entity_json(e), json_text(entity_kind_name(e.kind))));
        assert(occurs_in(entity_json(e), json_text(e.name)));
        lemma_occurs_in_list(es, k, json_text(e.id));
        lemma_occurs_in_list(es, k, json_text(entity_kind_name(e.kind)));
        lemma_occurs_in_list(es, k, json_text(e.name));
    }
    let rs = inv.graph.relations.map_values(|r: RelationView| relation_json(r));
    assert forall|k: int| 0 <= k < inv.graph.relations.len() implies {
        let r = #[trigger] inv.graph.relations[k];
        &&& occurs_in(doc, json_text(r.from))
        &&& occurs_in(doc, json_text(r.to))
        &&& occurs_in(doc, json_text(relation_kind_name(r.kind)))
        &&& occurs_in(doc, json_text(confidence_name(r.confidence)))
    } by {
        let r = inv.graph.relations[k];
        assert(rs[k] == relation_json(r));
        lemma_occurs_in_itself(json_text(r.from));
        lemma_occurs_in_itself(json_text(r.to));
        lemma_occurs_in_itself(json_text(relation_kind_name(r.kind)));
        lemma_occurs_in_itself(json_text(confidence_name(r.confidence)));
        assert(occurs_in(relation_json(r), json_text(r.from)));
        assert(occurs_in(relation_json(r), json_text(r.to)));
        assert(occurs_in(relation_json(r), json_text(relation_kind_name(r.kind))));
        assert(occurs_in(relation_json(r), json_text(confidence_name(r.confidence))));
        lemma_occurs_in_list(rs, k, json_text(r.from));
        lemma_occurs_in_list(rs, k, json_text(r.to));
        lemma_occurs_in_list(rs, k, json_text(relation_kind_name(r.kind)));
        lemma_occurs_in_list(rs, k, json_text(confidence_name(r.confidence)));
    }
    assert forall|k: int| 0 <= k < inv.incomplete.len() implies occurs_in(doc, json_text(#[trigger] inv.incomplete[k])) by {
        law_gaps_are_json_strings(inv, k);
    }
    let ss = inv.backend_status.map_values(|s: BackendStatusView| status_json(s));
    assert forall|k: int| 0 <= k < inv.backend_status.len() implies {
        let st = #[trigger] inv.backend_status[k];
        &&& occurs_in(doc, json_text(st.backend))
        &&& occurs_in(doc, json_text(state_display(st.state)))
    } by {
        let st = inv.backend_status[k];
        assert(ss[k] == status_json(st));
        lemma_occurs_in_itself(json_text(st.backend));
        lemma_occurs_in_itself(json_text(state_display(st.state)));
        assert(occurs_in(status_json(st), json_text(st.backend)));
        assert(occurs_in(status_json(st), json_text(state_display(st.state))));
        lemma_occurs_in_list(ss, k, json_text(st.backend));
        lemma_occurs_in_list(ss, k, json_text(state_display(st.state)));
    }
}

} // verus!
