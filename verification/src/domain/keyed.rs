use vstd::prelude::*;
use crate::domain::text::{lemma_text_lt_asymmetric, lemma_text_lt_irreflexive, lemma_text_lt_total, lemma_text_lt_transitive, text_lt};

verus! {

/// Whether the keys of `s` are strictly increasing, so that no key occurs
/// twice.
pub open spec fn sorted_by<T>(s: Seq<T>, key: spec_fn(T) -> Seq<char>) -> bool {
    forall|i: int, j: int| 0 <= i < j < s.len() ==> text_lt(key(s[i]), key(s[j]))
}

/// `s` with `x` added in key order; where an element with the same key is
/// already there, that element becomes `merge(element, x)` in its place.
pub open spec fn keyed_insert<T>(
    s: Seq<T>,
    x: T,
    key: spec_fn(T) -> Seq<char>,
    merge: spec_fn(T, T) -> T,
) -> Seq<T>
    decreases s.len(),
{
    if s.len() == 0 {
        seq![x]
    } else if key(s[0]) == key(x) {
        s.update(0, merge(s[0], x))
    } else if text_lt(key(x), key(s[0])) {
        seq![x] + s
    } else {
        seq![s[0]] + keyed_insert(s.drop_first(), x, key, merge)
    }
}

/// Whether some element of `s` has key `k`.
pub open spec fn has_key<T>(s: Seq<T>, k: Seq<char>, key: spec_fn(T) -> Seq<char>) -> bool {
    exists|i: int| 0 <= i < s.len() && key(s[i]) == k
}

/// Skipping a prefix whose keys are all below `key(x)` does not change where
/// `x` goes.
pub proof fn lemma_keyed_insert_prefix<T>(
    s: Seq<T>,
    x: T,
    key: spec_fn(T) -> Seq<char>,
    merge: spec_fn(T, T) -> T,
    i: int,
)
    requires
        0 <= i <= s.len(),
        forall|j: int| 0 <= j < i ==> text_lt(key(#[trigger] s[j]), key(x)),
    ensures
        keyed_insert(s, x, key, merge) == s.take(i) + keyed_insert(s.skip(i), x, key, merge),
    decreases i,
{
    if i == 0 {
        assert(s.take(0) + s.skip(0) =~= s);
        assert(s.take(0) + keyed_insert(s.skip(0), x, key, merge) =~= keyed_insert(s, x, key, merge));
    } else {
        lemma_text_lt_irreflexive(key(x));
        lemma_text_lt_asymmetric(key(s[0]), key(x));
        assert(key(s[0]) != key(x));
        let t = s.drop_first();
        assert forall|j: int| 0 <= j < i - 1 implies text_lt(key(#[trigger] t[j]), key(x)) by {
            assert(t[j] == s[j + 1]);
        }
        lemma_keyed_insert_prefix(t, x, key, merge, i - 1);
        assert(t.skip(i - 1) =~= s.skip(i));
        assert(seq![s[0]] + t.take(i - 1) =~= s.take(i));
        assert(seq![s[0]] + (t.take(i - 1) + keyed_insert(s.skip(i), x, key, merge))
            =~= s.take(i) + keyed_insert(s.skip(i), x, key, merge));
    }
}

/// Adding to a sorted sequence keeps it sorted, given that merging keeps the
/// key.
pub proof fn lemma_keyed_insert_sorted<T>(
    s: Seq<T>,
    x: T,
    key: spec_fn(T) -> Seq<char>,
    merge: spec_fn(T, T) -> T,
)
    requires
        sorted_by(s, key),
        forall|a: T, b: T| key(a) == key(b) ==> #[trigger] key(merge(a, b)) == key(a),
    ensures
        sorted_by(keyed_insert(s, x, key, merge), key),
        forall|k: Seq<char>|
            has_key(keyed_insert(s, x, key, merge), k, key) <==> (has_key(s, k, key) || k == key(x)),
    decreases s.len(),
{
    let r = keyed_insert(s, x, key, merge);
    if s.len() == 0 {
        assert forall|k: Seq<char>| has_key(r, k, key) <==> (has_key(s, k, key) || k == key(x)) by {
            if k == key(x) {
                assert(key(r[0]) == k);
            }
        }
    } else if key(s[0]) == key(x) {
        assert(key(merge(s[0], x)) == key(s[0]));
        assert forall|i: int, j: int| 0 <= i < j < r.len() implies text_lt(key(r[i]), key(r[j])) by {
            assert(key(r[i]) == key(s[i]));
            assert(key(r[j]) == key(s[j]));
        }
        assert forall|k: Seq<char>| has_key(r, k, key) <==> (has_key(s, k, key) || k == key(x)) by {
            if has_key(r, k, key) {
                let i = choose|i: int| 0 <= i < r.len() && key(r[i]) == k;
                assert(key(r[i]) == key(s[i]));
            }
            if has_key(s, k, key) {
                let i = choose|i: int| 0 <= i < s.len() && key(s[i]) == k;
                assert(key(r[i]) == key(s[i]));
            }
            if k == key(x) {
                assert(key(r[0]) == k);
            }
        }
    } else if text_lt(key(x), key(s[0])) {
        assert forall|i: int, j: int| 0 <= i < j < r.len() implies text_lt(key(r[i]), key(r[j])) by {
            if i == 0 {
                assert(r[j] == s[j - 1]);
                if j - 1 > 0 {
                    lemma_text_lt_transitive(key(x), key(s[0]), key(s[j - 1]));
                }
            } else {
                assert(r[i] == s[i - 1]);
                assert(r[j] == s[j - 1]);
            }
        }
        assert forall|k: Seq<char>| has_key(r, k, key) <==> (has_key(s, k, key) || k == key(x)) by {
            if has_key(r, k, key) {
                let i = choose|i: int| 0 <= i < r.len() && key(r[i]) == k;
                if i > 0 {
                    assert(r[i] == s[i - 1]);
                }
            }
            if has_key(s, k, key) {
                let i = choose|i: int| 0 <= i < s.len() && key(s[i]) == k;
                assert(r[i + 1] == s[i]);
            }
            if k == key(x) {
                assert(key(r[0]) == k);
            }
        }
    } else {
        let t = s.drop_first();
        assert(sorted_by(t, key)) by {
            assert forall|i: int, j: int| 0 <= i < j < t.len() implies text_lt(key(t[i]), key(t[j])) by {
                assert(t[i] == s[i + 1]);
                assert(t[j] == s[j + 1]);
            }
        }
        lemma_keyed_insert_sorted(t, x, key, merge);
        let rt = keyed_insert(t, x, key, merge);
        assert(r == seq![s[0]] + rt);
        lemma_text_lt_total(key(x), key(s[0]));
        assert forall|i: int, j: int| 0 <= i < j < r.len() implies text_lt(key(r[i]), key(r[j])) by {
            if i == 0 {
                assert(r[j] == rt[j - 1]);
                let kj = key(rt[j - 1]);
                assert(0 <= j - 1 < rt.len() && key(rt[j - 1]) == kj);
                assert(has_key(rt, kj, key));
                if kj == key(x) {
                } else {
                    assert(has_key(t, kj, key));
                    let m = choose|m: int| 0 <= m < t.len() && key(t[m]) == kj;
                    assert(t[m] == s[m + 1]);
                    assert(text_lt(key(s[0]), key(s[m + 1])));
                }
            } else {
                assert(r[i] == rt[i - 1]);
                assert(r[j] == rt[j - 1]);
            }
        }
        assert forall|k: Seq<char>| has_key(r, k, key) <==> (has_key(s, k, key) || k == key(x)) by {
            if has_key(r, k, key) {
                let i = choose|i: int| 0 <= i < r.len() && key(r[i]) == k;
                if i > 0 {
                    assert(r[i] == rt[i - 1]);
                    assert(has_key(rt, k, key));
                    if has_key(t, k, key) {
                        let m = choose|m: int| 0 <= m < t.len() && key(t[m]) == k;
                        assert(t[m] == s[m + 1]);
                    }
                } else {
                    assert(key(s[0]) == k);
                }
            }
            if has_key(s, k, key) {
                let i = choose|i: int| 0 <= i < s.len() && key(s[i]) == k;
                if i == 0 {
                    assert(key(r[0]) == k);
                } else {
                    assert(t[i - 1] == s[i]);
                    assert(has_key(t, k, key));
                    assert(has_key(rt, k, key));
                    let m = choose|m: int| 0 <= m < rt.len() && key(rt[m]) == k;
                    assert(r[m + 1] == rt[m]);
                }
            }
            if k == key(x) {
                assert(has_key(rt, k, key));
                let m = choose|m: int| 0 <= m < rt.len() && key(rt[m]) == k;
                assert(r[m + 1] == rt[m]);
            }
        }
    }
}

} // verus!
