use vstd::prelude::*;
use crate::domain::confidence::{confidence_rank, stronger};
use crate::domain::entity::{entry_key, meta_extend, meta_get, meta_insert, meta_sorted, replace_entry, EntityView};
use crate::domain::evidence::EvidenceView;
use crate::domain::graph::{entities_add, entities_sorted, entity_key, evidence_union, find_edge_from, find_entity, merge_entity, merge_relation, relations_add, same_edge};
use crate::domain::keyed::{has_key, keyed_insert, lemma_keyed_insert_sorted, sorted_by};
use crate::domain::relation::RelationView;
use crate::domain::text::{lemma_text_lt_asymmetric, lemma_text_lt_irreflexive, lemma_text_lt_transitive, text_lt};

verus! {

// ---------------------------------------------------------------------------
// Sorted sequences
// ---------------------------------------------------------------------------

proof fn lemma_sorted_tail<T>(s: Seq<T>, key: spec_fn(T) -> Seq<char>)
    requires
        sorted_by(s, key),
        s.len() > 0,
    ensures
        sorted_by(s.drop_first(), key),
        forall|j: int| 0 <= j < s.drop_first().len() ==> text_lt(key(s[0]), key(#[trigger] s.drop_first()[j])),
{
    let t = s.drop_first();
    assert forall|a: int, b: int| 0 <= a < b < t.len() implies text_lt(key(t[a]), key(t[b])) by {
        assert(t[a] == s[a + 1]);
        assert(t[b] == s[b + 1]);
    }
    assert forall|j: int| 0 <= j < t.len() implies text_lt(key(s[0]), key(#[trigger] t[j])) by {
        assert(t[j] == s[j + 1]);
    }
}

/// Adding an element whose key is already present, where merging changes
/// nothing, leaves the sequence as it is.
proof fn lemma_keyed_insert_unchanged<T>(
    s: Seq<T>,
    x: T,
    key: spec_fn(T) -> Seq<char>,
    merge: spec_fn(T, T) -> T,
    i: int,
)
    requires
        sorted_by(s, key),
        0 <= i < s.len(),
        key(s[i]) == key(x),
        merge(s[i], x) == s[i],
    ensures
        keyed_insert(s, x, key, merge) == s,
    decreases s.len(),
{
    if key(s[0]) == key(x) {
        if i != 0 {
            assert(text_lt(key(s[0]), key(s[i])));
            lemma_text_lt_irreflexive(key(x));
        }
        assert(s.update(0, merge(s[0], x)) =~= s);
    } else {
        assert(i != 0);
        assert(text_lt(key(s[0]), key(s[i])));
        lemma_text_lt_asymmetric(key(s[0]), key(x));
        lemma_sorted_tail(s, key);
        assert(s.drop_first()[i - 1] == s[i]);
        lemma_keyed_insert_unchanged(s.drop_first(), x, key, merge, i - 1);
        assert(seq![s[0]] + s.drop_first() =~= s);
    }
}

/// Adding `x` puts exactly `x`, or its merge into the element with its key,
/// under its key, and leaves every other element in place.
proof fn lemma_keyed_insert_lookup<T>(
    s: Seq<T>,
    x: T,
    key: spec_fn(T) -> Seq<char>,
    merge: spec_fn(T, T) -> T,
)
    requires
        sorted_by(s, key),
        forall|a: T, b: T| key(a) == key(b) ==> #[trigger] key(merge(a, b)) == key(a),
    ensures
        keyed_insert(s, x, key, merge).len() == if has_key(s, key(x), key) { s.len() } else { s.len() + 1 },
        forall|y: T| #![trigger keyed_insert(s, x, key, merge).contains(y)]
            keyed_insert(s, x, key, merge).contains(y) && key(y) != key(x) <==> s.contains(y) && key(y) != key(x),
        has_key(s, key(x), key) ==> exists|i: int|
            0 <= i < s.len() && key(s[i]) == key(x) && #[trigger] keyed_insert(s, x, key, merge).contains(merge(s[i], x)),
        !has_key(s, key(x), key) ==> keyed_insert(s, x, key, merge).contains(x),
    decreases s.len(),
{
    let r = keyed_insert(s, x, key, merge);
    if s.len() == 0 {
        assert(r =~= seq![x]);
        assert(r[0] == x);
    } else if key(s[0]) == key(x) {
        assert(has_key(s, key(x), key)) by { assert(key(s[0]) == key(x)); }
        assert(r[0] == merge(s[0], x));
        assert(r.contains(merge(s[0], x)));
        assert forall|y: T| r.contains(y) && key(y) != key(x) <==> s.contains(y) && key(y) != key(x) by {
            if r.contains(y) && key(y) != key(x) {
                let j = choose|j: int| 0 <= j < r.len() && r[j] == y;
                assert(j != 0);
                assert(s[j] == y);
            }
            if s.contains(y) && key(y) != key(x) {
                let j = choose|j: int| 0 <= j < s.len() && s[j] == y;
                assert(j != 0);
                assert(r[j] == y);
            }
        }
    } else if text_lt(key(x), key(s[0])) {
        assert(!has_key(s, key(x), key)) by {
            if has_key(s, key(x), key) {
                let j = choose|j: int| 0 <= j < s.len() && key(s[j]) == key(x);
                if j > 0 {
                    lemma_text_lt_transitive(key(x), key(s[0]), key(s[j]));
                }
                lemma_text_lt_irreflexive(key(x));
            }
        }
        assert(r[0] == x);
        assert forall|y: T| r.contains(y) && key(y) != key(x) <==> s.contains(y) && key(y) != key(x) by {
            if r.contains(y) && key(y) != key(x) {
                let j = choose|j: int| 0 <= j < r.len() && r[j] == y;
                assert(s[j - 1] == y);
            }
            if s.contains(y) && key(y) != key(x) {
                let j = choose|j: int| 0 <= j < s.len() && s[j] == y;
                assert(r[j + 1] == y);
            }
        }
    } else {
        let t = s.drop_first();
        lemma_sorted_tail(s, key);
        lemma_keyed_insert_lookup(t, x, key, merge);
        let rt = keyed_insert(t, x, key, merge);
        assert(r == seq![s[0]] + rt);
        assert(has_key(s, key(x), key) <==> has_key(t, key(x), key)) by {
            if has_key(s, key(x), key) {
                let j = choose|j: int| 0 <= j < s.len() && key(s[j]) == key(x);
                assert(j != 0);
                assert(t[j - 1] == s[j]);
            }
            if has_key(t, key(x), key) {
                let j = choose|j: int| 0 <= j < t.len() && key(t[j]) == key(x);
                assert(s[j + 1] == t[j]);
            }
        }
        assert forall|y: T| r.contains(y) && key(y) != key(x) <==> s.contains(y) && key(y) != key(x) by {
            if r.contains(y) && key(y) != key(x) {
                let j = choose|j: int| 0 <= j < r.len() && r[j] == y;
                if j > 0 {
                    assert(rt[j - 1] == y);
                    assert(rt.contains(y));
                    assert(t.contains(y));
                    let m = choose|m: int| 0 <= m < t.len() && t[m] == y;
                    assert(s[m + 1] == y);
                } else {
                    assert(s[0] == y);
                }
            }
            if s.contains(y) && key(y) != key(x) {
                let j = choose|j: int| 0 <= j < s.len() && s[j] == y;
                if j > 0 {
                    assert(t[j - 1] == y);
                    assert(t.contains(y));
                    assert(rt.contains(y));
                    let m = choose|m: int| 0 <= m < rt.len() && rt[m] == y;
                    assert(r[m + 1] == y);
                } else {
                    assert(r[0] == y);
                }
            }
        }
        if has_key(s, key(x), key) {
            let i = choose|i: int| 0 <= i < t.len() && key(t[i]) == key(x) && rt.contains(merge(t[i], x));
            assert(s[i + 1] == t[i]);
            let m = choose|m: int| 0 <= m < rt.len() && rt[m] == merge(t[i], x);
            assert(r[m + 1] == merge(s[i + 1], x));
            assert(r.contains(merge(s[i + 1], x)));
            assert(key(s[i + 1]) == key(x));
        } else {
            let m = choose|m: int| 0 <= m < rt.len() && rt[m] == x;
            assert(r[m + 1] == x);
        }
    }
}

// ---------------------------------------------------------------------------
// Metadata
// ---------------------------------------------------------------------------

proof fn lemma_meta_insert_present(m: Seq<(Seq<char>, Seq<char>)>, k: Seq<char>, v: Seq<char>)
    requires
        meta_sorted(m),
        m.contains((k, v)),
    ensures
        meta_insert(m, k, v) == m,
{
    let i = choose|i: int| 0 <= i < m.len() && m[i] == (k, v);
    lemma_keyed_insert_unchanged(
        m,
        (k, v),
        |e: (Seq<char>, Seq<char>)| entry_key(e),
        |a: (Seq<char>, Seq<char>), b: (Seq<char>, Seq<char>)| replace_entry(a, b),
        i,
    );
}

proof fn lemma_meta_insert_facts(m: Seq<(Seq<char>, Seq<char>)>, k: Seq<char>, v: Seq<char>)
    requires
        meta_sorted(m),
    ensures
        meta_sorted(meta_insert(m, k, v)),
        meta_insert(m, k, v).contains((k, v)),
        forall|e: (Seq<char>, Seq<char>)| #![trigger meta_insert(m, k, v).contains(e)]
            e.0 != k ==> (meta_insert(m, k, v).contains(e) <==> m.contains(e)),
{
    let kf = |e: (Seq<char>, Seq<char>)| entry_key(e);
    let mf = |a: (Seq<char>, Seq<char>), b: (Seq<char>, Seq<char>)| replace_entry(a, b);
    assert forall|a: (Seq<char>, Seq<char>), b: (Seq<char>, Seq<char>)| kf(a) == kf(b) implies #[trigger] kf(mf(a, b)) == kf(a) by {}
    lemma_keyed_insert_sorted(m, (k, v), kf, mf);
    lemma_keyed_insert_lookup(m, (k, v), kf, mf);
    if has_key(m, k, kf) {
        let i = choose|i: int| 0 <= i < m.len() && kf(m[i]) == k && keyed_insert(m, (k, v), kf, mf).contains(mf(m[i], (k, v)));
        assert(mf(m[i], (k, v)) == (k, v));
    }
    assert forall|e: (Seq<char>, Seq<char>)| e.0 != k implies (meta_insert(m, k, v).contains(e) <==> m.contains(e)) by {
        assert(kf(e) != kf((k, v)));
    }
}

/// After extending by `o`, every entry of `o` whose key occurs nowhere later
/// in `o` is present.
proof fn lemma_meta_extend_holds(m: Seq<(Seq<char>, Seq<char>)>, o: Seq<(Seq<char>, Seq<char>)>)
    requires
        meta_sorted(m),
        meta_sorted(o),
    ensures
        meta_sorted(meta_extend(m, o)),
        forall|j: int| 0 <= j < o.len() ==> meta_extend(m, o).contains(#[trigger] o[j]),
    decreases o.len(),
{
    if o.len() > 0 {
        lemma_meta_insert_facts(m, o[0].0, o[0].1);
        let m1 = meta_insert(m, o[0].0, o[0].1);
        let t = o.drop_first();
        lemma_sorted_tail(o, |e: (Seq<char>, Seq<char>)| entry_key(e));
        lemma_meta_extend_holds(m1, t);
        lemma_meta_extend_keeps(m1, t, o[0]);
        assert forall|j: int| 0 <= j < o.len() implies meta_extend(m, o).contains(#[trigger] o[j]) by {
            if j > 0 {
                assert(t[j - 1] == o[j]);
            }
        }
    }
}

/// Extending by entries whose keys all differ from `e`'s keeps `e`.
proof fn lemma_meta_extend_keeps(m: Seq<(Seq<char>, Seq<char>)>, o: Seq<(Seq<char>, Seq<char>)>, e: (Seq<char>, Seq<char>))
    requires
        meta_sorted(m),
        meta_sorted(o),
        m.contains(e),
        forall|j: int| 0 <= j < o.len() ==> text_lt(e.0, #[trigger] o[j].0),
    ensures
        meta_extend(m, o).contains(e),
    decreases o.len(),
{
    if o.len() > 0 {
        lemma_text_lt_irreflexive(e.0);
        lemma_meta_insert_facts(m, o[0].0, o[0].1);
        let t = o.drop_first();
        lemma_sorted_tail(o, |x: (Seq<char>, Seq<char>)| entry_key(x));
        assert forall|j: int| 0 <= j < t.len() implies text_lt(e.0, #[trigger] t[j].0) by {
            assert(t[j] == o[j + 1]);
        }
        lemma_meta_extend_keeps(meta_insert(m, o[0].0, o[0].1), t, e);
    }
}

/// Extending by entries that are all present changes nothing.
proof fn lemma_meta_extend_present(m: Seq<(Seq<char>, Seq<char>)>, o: Seq<(Seq<char>, Seq<char>)>)
    requires
        meta_sorted(m),
        forall|j: int| 0 <= j < o.len() ==> m.contains(#[trigger] o[j]),
    ensures
        meta_extend(m, o) == m,
    decreases o.len(),
{
    if o.len() > 0 {
        assert(m.contains(o[0]));
        lemma_meta_insert_present(m, o[0].0, o[0].1);
        let t = o.drop_first();
        assert forall|j: int| 0 <= j < t.len() implies m.contains(#[trigger] t[j]) by {
            assert(t[j] == o[j + 1]);
        }
        lemma_meta_extend_present(m, t);
    }
}

/// Reading metadata after inserting a value under a key gives that value
/// back, and every other key reads as before.
pub proof fn law_metadata_read_after_insert(
    m: Seq<(Seq<char>, Seq<char>)>,
    k: Seq<char>,
    v: Seq<char>,
    other: Seq<char>,
)
    ensures
        meta_get(meta_insert(m, k, v), k) == Some(v),
        other != k ==> meta_get(meta_insert(m, k, v), other) == meta_get(m, other),
    decreases m.len(),
{
    let r = meta_insert(m, k, v);
    if m.len() == 0 {
        assert(r =~= seq![(k, v)]);
        assert(r.drop_first() =~= Seq::<(Seq<char>, Seq<char>)>::empty());
        assert(meta_get(r.drop_first(), other) is None);
    } else if m[0].0 == k {
        assert(r =~= m.update(0, (k, v)));
        assert(r.drop_first() =~= m.drop_first());
        if other != k {
            assert(meta_get(r, other) == meta_get(r.drop_first(), other));
            assert(meta_get(m, other) == meta_get(m.drop_first(), other));
        }
    } else if text_lt(k, m[0].0) {
        assert(r =~= seq![(k, v)] + m);
        assert(r.drop_first() =~= m);
        if other != k {
            assert(meta_get(r, other) == meta_get(r.drop_first(), other));
        }
    } else {
        law_metadata_read_after_insert(m.drop_first(), k, v, other);
        assert(r =~= seq![m[0]] + meta_insert(m.drop_first(), k, v));
        assert(r.drop_first() =~= meta_insert(m.drop_first(), k, v));
        assert(meta_get(r, k) == meta_get(r.drop_first(), k));
        if other != k && m[0].0 != other {
            assert(meta_get(r, other) == meta_get(r.drop_first(), other));
            assert(meta_get(m, other) == meta_get(m.drop_first(), other));
        }
    }
}

/// Merging the same metadata in twice is the same as merging it in once.
pub proof fn law_meta_extend_idempotent(m: Seq<(Seq<char>, Seq<char>)>, o: Seq<(Seq<char>, Seq<char>)>)
    requires
        meta_sorted(m),
        meta_sorted(o),
    ensures
        meta_extend(meta_extend(m, o), o) == meta_extend(m, o),
{
    lemma_meta_extend_holds(m, o);
    lemma_meta_extend_present(meta_extend(m, o), o);
}


// ---------------------------------------------------------------------------
// Entities
// ---------------------------------------------------------------------------

proof fn lemma_find_entity_contains(s: Seq<EntityView>, y: EntityView)
    requires
        entities_sorted(s),
        s.contains(y),
    ensures
        find_entity(s, y.id) == Some(y),
    decreases s.len(),
{
    let j = choose|j: int| 0 <= j < s.len() && s[j] == y;
    if s[0].id != y.id {
        assert(j != 0);
        lemma_sorted_tail(s, |x: EntityView| entity_key(x));
        assert(s.drop_first()[j - 1] == y);
        lemma_find_entity_contains(s.drop_first(), y);
    } else if j != 0 {
        assert(text_lt(entity_key(s[0]), entity_key(s[j])));
        lemma_text_lt_irreflexive(y.id);
    }
}

proof fn lemma_find_entity_missing(s: Seq<EntityView>, k: Seq<char>)
    requires
        !has_key(s, k, |x: EntityView| entity_key(x)),
    ensures
        find_entity(s, k) is None,
    decreases s.len(),
{
    if s.len() > 0 {
        assert(s[0].id != k) by {
            if s[0].id == k {
                assert(entity_key(s[0]) == k);
            }
        }
        assert(!has_key(s.drop_first(), k, |x: EntityView| entity_key(x))) by {
            if has_key(s.drop_first(), k, |x: EntityView| entity_key(x)) {
                let j = choose|j: int| 0 <= j < s.drop_first().len() && entity_key(s.drop_first()[j]) == k;
                assert(s[j + 1] == s.drop_first()[j]);
            }
        }
        lemma_find_entity_missing(s.drop_first(), k);
    }
}

pub(crate) proof fn lemma_find_entity_found(s: Seq<EntityView>, k: Seq<char>)
    ensures
        find_entity(s, k) matches Some(y) ==> s.contains(y) && y.id == k,
        find_entity(s, k) is None ==> !has_key(s, k, |x: EntityView| entity_key(x)),
    decreases s.len(),
{
    if s.len() > 0 {
        lemma_find_entity_found(s.drop_first(), k);
        if find_entity(s, k) is Some && s[0].id != k {
            let y = find_entity(s, k).unwrap();
            let j = choose|j: int| 0 <= j < s.drop_first().len() && s.drop_first()[j] == y;
            assert(s[j + 1] == y);
        }
        if find_entity(s, k) is None && has_key(s, k, |x: EntityView| entity_key(x)) {
            let j = choose|j: int| 0 <= j < s.len() && entity_key(s[j]) == k;
            assert(j != 0);
            assert(s.drop_first()[j - 1] == s[j]);
            assert(has_key(s.drop_first(), k, |x: EntityView| entity_key(x)));
        }
    }
}

/// Adding an entity keeps identifiers unique: the graph holds exactly one
/// entity under the added identifier (the added entity, or the existing one
/// merged with it), one entity more only when the identifier was new, and
/// every entity under another identifier as it was.
pub proof fn law_add_entity_unique(s: Seq<EntityView>, e: EntityView)
    requires
        entities_sorted(s),
    ensures
        entities_sorted(entities_add(s, e)),
        entities_add(s, e).len() == if find_entity(s, e.id) is Some { s.len() } else { s.len() + 1 },
        find_entity(entities_add(s, e), e.id) == Some(
            match find_entity(s, e.id) {
                Some(x) => merge_entity(x, e),
                None => e,
            },
        ),
        forall|k: Seq<char>| k != e.id ==> find_entity(#[trigger] entities_add(s, e), k) == find_entity(s, k),
{
    let kf = |x: EntityView| entity_key(x);
    let mf = |a: EntityView, b: EntityView| merge_entity(a, b);
    assert forall|a: EntityView, b: EntityView| kf(a) == kf(b) implies #[trigger] kf(mf(a, b)) == kf(a) by {}
    let r = entities_add(s, e);
    assert(r == keyed_insert(s, e, kf, mf));
    lemma_keyed_insert_sorted(s, e, kf, mf);
    lemma_keyed_insert_lookup(s, e, kf, mf);
    lemma_find_entity_found(s, e.id);
    if has_key(s, e.id, kf) {
        let i = choose|i: int| 0 <= i < s.len() && kf(s[i]) == e.id && r.contains(mf(s[i], e));
        lemma_find_entity_contains(s, s[i]);
        lemma_find_entity_contains(r, mf(s[i], e));
    } else {
        lemma_find_entity_contains(r, e);
    }
    assert forall|k: Seq<char>| k != e.id implies find_entity(#[trigger] entities_add(s, e), k) == find_entity(s, k) by {
        lemma_find_entity_found(s, k);
        lemma_find_entity_found(r, k);
        match find_entity(s, k) {
            Some(y) => {
                assert(r.contains(y));
                lemma_find_entity_contains(r, y);
            },
            None => {
                if find_entity(r, k) is Some {
                    let y = find_entity(r, k).unwrap();
                    assert(s.contains(y));
                    assert(has_key(s, k, kf)) by {
                        let j = choose|j: int| 0 <= j < s.len() && s[j] == y;
                        assert(kf(s[j]) == k);
                    }
                }
            },
        }
    }
}

/// The entities of a graph come out in strictly increasing order of
/// identifier, so each identifier once, and looking up the identifier of any
/// of them gives that entity back.
pub proof fn law_entities_in_id_order(s: Seq<EntityView>)
    requires
        entities_sorted(s),
    ensures
        forall|i: int, j: int| 0 <= i < j < s.len() ==> text_lt(#[trigger] s[i].id, #[trigger] s[j].id),
        forall|i: int, j: int| 0 <= i < s.len() && 0 <= j < s.len() && i != j ==> s[i].id != s[j].id,
        forall|i: int| 0 <= i < s.len() ==> find_entity(s, #[trigger] s[i].id) == Some(s[i]),
{
    assert forall|i: int, j: int| 0 <= i < j < s.len() implies text_lt(#[trigger] s[i].id, #[trigger] s[j].id) by {
        assert(entity_key(s[i]) == s[i].id && entity_key(s[j]) == s[j].id);
    }
    assert forall|i: int, j: int| 0 <= i < s.len() && 0 <= j < s.len() && i != j implies s[i].id != s[j].id by {
        if i < j {
            assert(text_lt(s[i].id, s[j].id));
        } else {
            assert(text_lt(s[j].id, s[i].id));
        }
        lemma_text_lt_irreflexive(s[i].id);
    }
    assert forall|i: int| 0 <= i < s.len() implies find_entity(s, #[trigger] s[i].id) == Some(s[i]) by {
        assert(s.contains(s[i]));
        lemma_find_entity_contains(s, s[i]);
    }
}

/// Adding the same entity twice gives the same graph as adding it once.
pub proof fn law_add_entity_idempotent(s: Seq<EntityView>, e: EntityView)
    requires
        entities_sorted(s),
        forall|j: int| 0 <= j < s.len() ==> meta_sorted(#[trigger] s[j].metadata),
        meta_sorted(e.metadata),
    ensures
        entities_add(entities_add(s, e), e) == entities_add(s, e),
{
    let kf = |x: EntityView| entity_key(x);
    let mf = |a: EntityView, b: EntityView| merge_entity(a, b);
    assert forall|a: EntityView, b: EntityView| kf(a) == kf(b) implies #[trigger] kf(mf(a, b)) == kf(a) by {}
    let r = entities_add(s, e);
    lemma_keyed_insert_sorted(s, e, kf, mf);
    lemma_keyed_insert_lookup(s, e, kf, mf);
    let z = if has_key(s, e.id, kf) {
        let i = choose|i: int| 0 <= i < s.len() && kf(s[i]) == e.id && r.contains(mf(s[i], e));
        law_meta_extend_idempotent(s[i].metadata, e.metadata);
        assert(mf(mf(s[i], e), e) == mf(s[i], e));
        mf(s[i], e)
    } else {
        lemma_meta_extend_present(e.metadata, e.metadata);
        assert(mf(e, e) == e);
        e
    };
    assert(r.contains(z));
    let j = choose|j: int| 0 <= j < r.len() && r[j] == z;
    lemma_keyed_insert_unchanged(r, e, kf, mf, j);
}

// ---------------------------------------------------------------------------
// Relations
// ---------------------------------------------------------------------------

proof fn lemma_find_edge_from(s: Seq<RelationView>, r: RelationView, i: int)
    requires
        0 <= i,
    ensures
        find_edge_from(s, r, i) matches Some(k) ==> i <= k < s.len() && same_edge(s[k], r)
            && forall|j: int| i <= j < k ==> !same_edge(#[trigger] s[j], r),
        find_edge_from(s, r, i) is None ==> forall|j: int| i <= j < s.len() ==> !same_edge(#[trigger] s[j], r),
    decreases s.len() - i,
{
    if i < s.len() && !same_edge(s[i], r) {
        lemma_find_edge_from(s, r, i + 1);
    }
}

proof fn lemma_find_edge_first(s: Seq<RelationView>, r: RelationView, k: int)
    requires
        0 <= k < s.len(),
        same_edge(s[k], r),
        forall|j: int| 0 <= j < k ==> !same_edge(#[trigger] s[j], r),
    ensures
        find_edge_from(s, r, 0) == Some(k),
{
    lemma_find_edge_step(s, r, k, k);
    assert(k - k == 0);
}

proof fn lemma_find_edge_step(s: Seq<RelationView>, r: RelationView, k: int, i: int)
    requires
        0 <= k < s.len(),
        0 <= i <= k,
        same_edge(s[k], r),
        forall|j: int| 0 <= j < k ==> !same_edge(#[trigger] s[j], r),
    ensures
        find_edge_from(s, r, k - i) == Some(k),
    decreases i,
{
    if i > 0 {
        lemma_find_edge_step(s, r, k, i - 1);
        assert(!same_edge(s[k - i], r));
    }
}

/// What the union of evidence holds: the old evidence first, unchanged, and
/// then each piece of added evidence that was missing.
pub proof fn law_evidence_union_contents(old: Seq<EvidenceView>, added: Seq<EvidenceView>)
    ensures
        evidence_union(old, added).len() >= old.len(),
        evidence_union(old, added).take(old.len() as int) == old,
        forall|x: EvidenceView| #![trigger evidence_union(old, added).contains(x)]
            evidence_union(old, added).contains(x) <==> (old.contains(x) || added.contains(x)),
    decreases added.len(),
{
    if added.len() > 0 {
        let next = if old.contains(added[0]) { old } else { old.push(added[0]) };
        law_evidence_union_contents(next, added.drop_first());
        let u = evidence_union(old, added);
        assert(u.take(old.len() as int) =~= next.take(old.len() as int).take(old.len() as int));
        assert(next.take(old.len() as int) =~= old);
        assert forall|x: EvidenceView| u.contains(x) <==> (old.contains(x) || added.contains(x)) by {
            if added.drop_first().contains(x) {
                let j = choose|j: int| 0 <= j < added.drop_first().len() && added.drop_first()[j] == x;
                assert(added[j + 1] == x);
            }
            if added.contains(x) && x != added[0] {
                let j = choose|j: int| 0 <= j < added.len() && added[j] == x;
                assert(added.drop_first()[j - 1] == x);
            }
            if next.contains(x) && !old.contains(x) {
                assert(x == added[0]) by {
                    let j = choose|j: int| 0 <= j < next.len() && next[j] == x;
                    assert(j == old.len());
                }
            }
            if old.contains(x) {
                let j = choose|j: int| 0 <= j < old.len() && old[j] == x;
                assert(next[j] == x);
            }
            if x == added[0] && !old.contains(x) {
                assert(next[old.len() as int] == x);
            }
        }
    } else {
        assert(old.take(old.len() as int) =~= old);
    }
}

proof fn lemma_evidence_union_present(old: Seq<EvidenceView>, added: Seq<EvidenceView>)
    requires
        forall|j: int| 0 <= j < added.len() ==> old.contains(#[trigger] added[j]),
    ensures
        evidence_union(old, added) == old,
    decreases added.len(),
{
    if added.len() > 0 {
        assert(old.contains(added[0]));
        assert forall|j: int| 0 <= j < added.drop_first().len() implies old.contains(#[trigger] added.drop_first()[j]) by {
            assert(added.drop_first()[j] == added[j + 1]);
        }
        lemma_evidence_union_present(old, added.drop_first());
    }
}

/// Adding a relation whose edge is already in the graph keeps the number of
/// relations, keeps the stronger confidence, and keeps all evidence of both;
/// a relation with a new edge is appended.
pub proof fn law_add_relation_merges(s: Seq<RelationView>, r: RelationView)
    ensures
        match find_edge_from(s, r, 0) {
            Some(i) => {
                &&& relations_add(s, r).len() == s.len()
                &&& same_edge(relations_add(s, r)[i], r)
                &&& relations_add(s, r)[i].confidence == stronger(s[i].confidence, r.confidence)
                &&& confidence_rank(relations_add(s, r)[i].confidence) >= confidence_rank(r.confidence)
                &&& confidence_rank(relations_add(s, r)[i].confidence) >= confidence_rank(s[i].confidence)
                &&& forall|x: EvidenceView| #![trigger relations_add(s, r)[i].evidence.contains(x)]
                    relations_add(s, r)[i].evidence.contains(x) <==> (s[i].evidence.contains(x) || r.evidence.contains(x))
                &&& forall|j: int| 0 <= j < s.len() && j != i ==> #[trigger] relations_add(s, r)[j] == s[j]
            },
            None => relations_add(s, r) == s.push(r),
        },
{
    lemma_find_edge_from(s, r, 0);
    if let Some(i) = find_edge_from(s, r, 0) {
        law_evidence_union_contents(s[i].evidence, r.evidence);
    }
}

/// Adding the same relation twice gives the same graph as adding it once.
pub proof fn law_add_relation_idempotent(s: Seq<RelationView>, r: RelationView)
    ensures
        relations_add(relations_add(s, r), r) == relations_add(s, r),
{
    lemma_find_edge_from(s, r, 0);
    let r1 = relations_add(s, r);
    match find_edge_from(s, r, 0) {
        Some(i) => {
            let m = merge_relation(s[i], r);
            law_evidence_union_contents(s[i].evidence, r.evidence);
            assert forall|j: int| 0 <= j < i implies !same_edge(#[trigger] r1[j], r) by {
                assert(r1[j] == s[j]);
            }
            lemma_find_edge_first(r1, r, i);
            assert forall|j: int| 0 <= j < r.evidence.len() implies m.evidence.contains(#[trigger] r.evidence[j]) by {
                assert(r.evidence.contains(r.evidence[j]));
            }
            lemma_evidence_union_present(m.evidence, r.evidence);
            assert(merge_relation(m, r) == m);
            assert(r1.update(i, merge_relation(r1[i], r)) =~= r1);
        },
        None => {
            assert forall|j: int| 0 <= j < s.len() implies !same_edge(#[trigger] r1[j], r) by {
                assert(r1[j] == s[j]);
            }
            lemma_find_edge_first(r1, r, s.len() as int);
            assert forall|j: int| 0 <= j < r.evidence.len() implies r.evidence.contains(#[trigger] r.evidence[j]) by {}
            lemma_evidence_union_present(r.evidence, r.evidence);
            assert(merge_relation(r, r) == r);
            assert(r1.update(s.len() as int, merge_relation(r1[s.len() as int], r)) =~= r1);
        },
    }
}

/// Whether no two relations connect the same entities in the same way.
pub open spec fn edges_unique(s: Seq<RelationView>) -> bool {
    forall|i: int, j: int| 0 <= i < s.len() && 0 <= j < s.len() && i != j ==> !same_edge(#[trigger] s[i], #[trigger] s[j])
}

proof fn lemma_find_edge_none(s: Seq<RelationView>, r: RelationView, i: int)
    requires
        0 <= i,
        find_edge_from(s, r, i) is None,
    ensures
        forall|j: int| i <= j < s.len() ==> !same_edge(#[trigger] s[j], r),
    decreases s.len() - i,
{
    if i < s.len() {
        lemma_find_edge_none(s, r, i + 1);
    }
}

proof fn lemma_find_edge_some(s: Seq<RelationView>, r: RelationView, i: int)
    requires
        0 <= i,
    ensures
        find_edge_from(s, r, i) matches Some(k) ==> i <= k < s.len() && same_edge(s[k], r),
    decreases s.len() - i,
{
    if i < s.len() {
        lemma_find_edge_some(s, r, i + 1);
    }
}

/// Adding a relation keeps edges unique: a relation whose edge is there is
/// merged into it, and any other is appended.
pub proof fn law_add_relation_keeps_edges_unique(s: Seq<RelationView>, r: RelationView)
    requires
        edges_unique(s),
    ensures
        edges_unique(relations_add(s, r)),
{
    let t = relations_add(s, r);
    lemma_find_edge_some(s, r, 0);
    match find_edge_from(s, r, 0) {
        Some(k) => {
            assert forall|i: int, j: int| 0 <= i < t.len() && 0 <= j < t.len() && i != j implies !same_edge(
                #[trigger] t[i],
                #[trigger] t[j],
            ) by {
                assert(same_edge(t[k], s[k]));
                if i != k && j != k {
                    assert(t[i] == s[i] && t[j] == s[j]);
                } else if i == k {
                    assert(t[j] == s[j]);
                    assert(!same_edge(s[k], s[j]));
                } else {
                    assert(t[i] == s[i]);
                    assert(!same_edge(s[i], s[k]));
                }
            }
        },
        None => {
            lemma_find_edge_none(s, r, 0);
            assert forall|i: int, j: int| 0 <= i < t.len() && 0 <= j < t.len() && i != j implies !same_edge(
                #[trigger] t[i],
                #[trigger] t[j],
            ) by {
                if i < s.len() && j < s.len() {
                    assert(t[i] == s[i] && t[j] == s[j]);
                } else if i == s.len() {
                    assert(t[j] == s[j]);
                    assert(!same_edge(s[j], r));
                } else {
                    assert(t[i] == s[i]);
                    assert(!same_edge(s[i], r));
                }
            }
        },
    }
}

// ---------------------------------------------------------------------------
// Edges
// ---------------------------------------------------------------------------

/// Whether some relation goes from `from` to `to` with kind `kind`.
pub open spec fn has_edge(s: Seq<RelationView>, from: Seq<char>, to: Seq<char>, kind: crate::domain::relation::RelationKind) -> bool {
    exists|j: int| 0 <= j < s.len() && (#[trigger] s[j]).from == from && s[j].to == to && s[j].kind == kind
}

/// Adding a relation leaves a relation with its edge in the graph, and keeps
/// every edge that was there.
pub proof fn lemma_relations_add_edges(s: Seq<RelationView>, r: RelationView)
    ensures
        has_edge(relations_add(s, r), r.from, r.to, r.kind),
        forall|from: Seq<char>, to: Seq<char>, kind: crate::domain::relation::RelationKind|
            has_edge(s, from, to, kind) ==> #[trigger] has_edge(relations_add(s, r), from, to, kind),
        forall|from: Seq<char>, to: Seq<char>, kind: crate::domain::relation::RelationKind|
            #[trigger] has_edge(relations_add(s, r), from, to, kind) ==> has_edge(s, from, to, kind)
                || (from == r.from && to == r.to && kind == r.kind),
{
    lemma_find_edge_from(s, r, 0);
    let t = relations_add(s, r);
    match find_edge_from(s, r, 0) {
        Some(i) => {
            assert(t == s.update(i, merge_relation(s[i], r)));
            assert(t[i].from == r.from && t[i].to == r.to && t[i].kind == r.kind);
            assert forall|from: Seq<char>, to: Seq<char>, kind: crate::domain::relation::RelationKind|
                has_edge(s, from, to, kind) implies #[trigger] has_edge(t, from, to, kind) by {
                let j = choose|j: int| 0 <= j < s.len() && (#[trigger] s[j]).from == from && s[j].to == to && s[j].kind == kind;
                assert(t[j].from == from && t[j].to == to && t[j].kind == kind);
            }
            assert forall|from: Seq<char>, to: Seq<char>, kind: crate::domain::relation::RelationKind|
                #[trigger] has_edge(t, from, to, kind) implies has_edge(s, from, to, kind)
                    || (from == r.from && to == r.to && kind == r.kind) by {
                let j = choose|j: int| 0 <= j < t.len() && (#[trigger] t[j]).from == from && t[j].to == to && t[j].kind == kind;
                if j != i {
                    assert(s[j] == t[j]);
                }
            }
        },
        None => {
            assert(t == s.push(r));
            assert(t[s.len() as int] == r);
            assert forall|from: Seq<char>, to: Seq<char>, kind: crate::domain::relation::RelationKind|
                has_edge(s, from, to, kind) implies #[trigger] has_edge(t, from, to, kind) by {
                let j = choose|j: int| 0 <= j < s.len() && (#[trigger] s[j]).from == from && s[j].to == to && s[j].kind == kind;
                assert(t[j] == s[j]);
            }
            assert forall|from: Seq<char>, to: Seq<char>, kind: crate::domain::relation::RelationKind|
                #[trigger] has_edge(t, from, to, kind) implies has_edge(s, from, to, kind)
                    || (from == r.from && to == r.to && kind == r.kind) by {
                let j = choose|j: int| 0 <= j < t.len() && (#[trigger] t[j]).from == from && t[j].to == to && t[j].kind == kind;
                if j < s.len() {
                    assert(s[j] == t[j]);
                }
            }
        },
    }
}

} // verus!
