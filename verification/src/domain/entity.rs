use vstd::prelude::*;
use crate::domain::keyed::{keyed_insert, lemma_keyed_insert_prefix, lemma_keyed_insert_sorted, sorted_by};
use crate::domain::text::{compare_text, owned, text_lt};
use std::cmp::Ordering;

verus! {

// ---------------------------------------------------------------------------
// Entity identifiers
// ---------------------------------------------------------------------------

/// The stable identifier of an entity, such as `file:/usr/bin/bash`.
/// Identifiers are ordered as their text is.
#[derive(Debug, Clone, Hash, Ord)]
pub struct EntityId(String);

impl View for EntityId {
    type V = Seq<char>;

    closed spec fn view(&self) -> Seq<char> {
        self.0@
    }
}

impl PartialEq for EntityId {
    fn eq(&self, other: &Self) -> (r: bool) {
        self.0 == other.0
    }
}

impl Eq for EntityId {}

impl vstd::std_specs::cmp::PartialEqSpecImpl for EntityId {
    open spec fn obeys_eq_spec() -> bool {
        true
    }

    open spec fn eq_spec(&self, other: &Self) -> bool {
        self@ == other@
    }
}

impl PartialOrd for EntityId {
    fn partial_cmp(&self, other: &Self) -> (r: Option<Ordering>) {
        let c = compare_text(self.0.as_str(), other.0.as_str());
        if c < 0 {
            Some(Ordering::Less)
        } else if c == 0 {
            Some(Ordering::Equal)
        } else {
            Some(Ordering::Greater)
        }
    }
}

impl vstd::std_specs::cmp::PartialOrdSpecImpl for EntityId {
    open spec fn obeys_partial_cmp_spec() -> bool {
        true
    }

    open spec fn partial_cmp_spec(&self, other: &Self) -> Option<Ordering> {
        if self@ == other@ {
            Some(Ordering::Equal)
        } else if text_lt(self@, other@) {
            Some(Ordering::Less)
        } else {
            Some(Ordering::Greater)
        }
    }
}

impl EntityId {
    pub fn new(value: &str) -> (r: Self)
        ensures
            r@ == value@,
    {
        EntityId(owned(value))
    }

    /// An identifier with the text of `value`, taking the string as it is.
    pub fn from_string(value: String) -> (r: Self)
        ensures
            r@ == value@,
    {
        EntityId(value)
    }

    pub fn as_str(&self) -> (r: &str)
        ensures
            r@ == self@,
    {
        self.0.as_str()
    }

    /// A copy of this identifier.
    pub fn duplicate(&self) -> (r: Self)
        ensures
            r@ == self@,
    {
        EntityId(self.0.clone())
    }

    /// The identifier as text, as its `Display` shows it.
    pub fn to_string(&self) -> (r: String)
        ensures
            r@ == self@,
    {
        self.0.clone()
    }

    /// Whether two identifiers are equal.
    pub fn same(&self, other: &EntityId) -> (r: bool)
        ensures
            r == (self@ == other@),
    {
        self.0 == other.0
    }
}

// ---------------------------------------------------------------------------
// Entity kinds
// ---------------------------------------------------------------------------

#[derive(Debug, Clone, Copy, PartialEq, Eq, Structural, Hash)]
pub enum EntityKind {
    File,
    Executable,
    Package,
    Process,
    Service,
    Port,
    Socket,
    Mount,
    Configuration,
    StorePath,
    Derivation,
    Generation,
    KernelModule,
    Device,
}

/// The machine-readable name of an entity kind.
pub open spec fn entity_kind_name(k: EntityKind) -> Seq<char> {
    match k {
        EntityKind::File => "file"@,
        EntityKind::Executable => "executable"@,
        EntityKind::Package => "package"@,
        EntityKind::Process => "process"@,
        EntityKind::Service => "service"@,
        EntityKind::Port => "port"@,
        EntityKind::Socket => "socket"@,
        EntityKind::Mount => "mount"@,
        EntityKind::Configuration => "configuration"@,
        EntityKind::StorePath => "store_path"@,
        EntityKind::Derivation => "derivation"@,
        EntityKind::Generation => "generation"@,
        EntityKind::KernelModule => "kernel_module"@,
        EntityKind::Device => "device"@,
    }
}

impl EntityKind {
    pub fn as_str(&self) -> (r: &'static str)
        ensures
            r@ == entity_kind_name(*self),
    {
        match self {
            Self::File => "file",
            Self::Executable => "executable",
            Self::Package => "package",
            Self::Process => "process",
            Self::Service => "service",
            Self::Port => "port",
            Self::Socket => "socket",
            Self::Mount => "mount",
            Self::Configuration => "configuration",
            Self::StorePath => "store_path",
            Self::Derivation => "derivation",
            Self::Generation => "generation",
            Self::KernelModule => "kernel_module",
            Self::Device => "device",
        }
    }
}

// ---------------------------------------------------------------------------
// Metadata
// ---------------------------------------------------------------------------

/// A key of a metadata entry.
pub open spec fn entry_key(e: (Seq<char>, Seq<char>)) -> Seq<char> {
    e.0
}

/// Replacing an entry keeps the new one.
pub open spec fn replace_entry(old: (Seq<char>, Seq<char>), new: (Seq<char>, Seq<char>)) -> (Seq<char>, Seq<char>) {
    new
}

/// The entries after `insert(k, v)`: ordered by key, `k` mapped to `v`.
pub open spec fn meta_insert(m: Seq<(Seq<char>, Seq<char>)>, k: Seq<char>, v: Seq<char>) -> Seq<(Seq<char>, Seq<char>)> {
    keyed_insert(m, (k, v), |e: (Seq<char>, Seq<char>)| entry_key(e), |a: (Seq<char>, Seq<char>), b: (Seq<char>, Seq<char>)| replace_entry(a, b))
}

/// The entries after inserting each entry of `other`, in order.
pub open spec fn meta_extend(m: Seq<(Seq<char>, Seq<char>)>, other: Seq<(Seq<char>, Seq<char>)>) -> Seq<(Seq<char>, Seq<char>)>
    decreases other.len(),
{
    if other.len() == 0 {
        m
    } else {
        meta_extend(meta_insert(m, other[0].0, other[0].1), other.drop_first())
    }
}

/// Whether the entries are ordered by key with no key twice.
pub open spec fn meta_sorted(m: Seq<(Seq<char>, Seq<char>)>) -> bool {
    sorted_by(m, |e: (Seq<char>, Seq<char>)| entry_key(e))
}

/// The value stored under `k`, if any.
pub open spec fn meta_get(m: Seq<(Seq<char>, Seq<char>)>, k: Seq<char>) -> Option<Seq<char>>
    decreases m.len(),
{
    if m.len() == 0 {
        None
    } else if m[0].0 == k {
        Some(m[0].1)
    } else {
        meta_get(m.drop_first(), k)
    }
}

/// Key/value metadata, ordered by key, each key at most once.
#[derive(Debug)]
pub struct Metadata {
    entries: Vec<(String, String)>,
}

/// The view of one metadata entry.
pub open spec fn entry_view(e: (String, String)) -> (Seq<char>, Seq<char>) {
    (e.0@, e.1@)
}

impl View for Metadata {
    type V = Seq<(Seq<char>, Seq<char>)>;

    closed spec fn view(&self) -> Seq<(Seq<char>, Seq<char>)> {
        self.entries@.map_values(|e: (String, String)| entry_view(e))
    }
}

impl Metadata {
    #[verifier::type_invariant]
    closed spec fn ordered(self) -> bool {
        meta_sorted(self@)
    }

    /// Metadata is always ordered by key with each key once.
    pub(crate) fn note_sorted(&self)
        ensures
            meta_sorted(self@),
    {
        proof {
            use_type_invariant(self);
        }
    }

    pub fn new() -> (r: Self)
        ensures
            r@ == Seq::<(Seq<char>, Seq<char>)>::empty(),
    {
        let r = Metadata { entries: Vec::new() };
        assert(r@ =~= Seq::<(Seq<char>, Seq<char>)>::empty());
        r
    }

    pub fn len(&self) -> (r: usize)
        ensures
            r == self@.len(),
    {
        self.entries.len()
    }

    pub fn is_empty(&self) -> (r: bool)
        ensures
            r == (self@.len() == 0),
    {
        self.entries.len() == 0
    }

    /// The key and value of the entry at `i`, in key order.
    pub fn entry(&self, i: usize) -> (r: (&String, &String))
        requires
            i < self@.len(),
        ensures
            (r.0@, r.1@) == self@[i as int],
    {
        let e = &self.entries[i];
        (&e.0, &e.1)
    }

    /// Where `k` is, or where it would go.
    fn locate(&self, k: &str) -> (r: (usize, bool))
        ensures
            r.0 <= self@.len(),
            forall|j: int| 0 <= j < r.0 ==> text_lt(#[trigger] self@[j].0, k@),
            r.1 ==> r.0 < self@.len() && self@[r.0 as int].0 == k@,
            !r.1 ==> r.0 == self@.len() || text_lt(k@, self@[r.0 as int].0),
    {
        let mut i: usize = 0;
        while i < self.entries.len()
            invariant
                i <= self.entries.len(),
                self@.len() == self.entries.len(),
                forall|j: int| 0 <= j < i ==> text_lt(#[trigger] self@[j].0, k@),
            decreases self.entries.len() - i,
        {
            assert(self@[i as int] == entry_view(self.entries@[i as int]));
            let c = compare_text(self.entries[i].0.as_str(), k);
            if c == 0 {
                return (i, true);
            }
            if c > 0 {
                return (i, false);
            }
            i += 1;
        }
        (i, false)
    }

    /// The value stored under `key`.
    pub fn get(&self, key: &str) -> (r: Option<&String>)
        ensures
            match r {
                Some(v) => meta_get(self@, key@) == Some(v@),
                None => meta_get(self@, key@) is None,
            },
    {
        proof {
            use_type_invariant(self);
        }
        let (i, found) = self.locate(key);
        proof {
            lemma_meta_get_prefix(self@, key@, i as int);
        }
        if found {
            assert(self@[i as int] == entry_view(self.entries@[i as int]));
            Some(&self.entries[i].1)
        } else {
            proof {
                lemma_meta_get_absent(self@.skip(i as int), key@);
            }
            None
        }
    }

    /// Stores `value` under `key`, returning the value it replaces.
    pub fn insert(&mut self, key: String, value: String) -> (r: Option<String>)
        ensures
            final(self)@ == meta_insert(old(self)@, key@, value@),
            match r {
                Some(v) => meta_get(old(self)@, key@) == Some(v@),
                None => meta_get(old(self)@, key@) is None,
            },
    {
        proof {
            use_type_invariant(&*self);
        }
        let (i, found) = self.locate(key.as_str());
        let ghost kf = |e: (Seq<char>, Seq<char>)| entry_key(e);
        let ghost mf = |a: (Seq<char>, Seq<char>), b: (Seq<char>, Seq<char>)| replace_entry(a, b);
        let ghost m = self@;
        proof {
            assert forall|a: (Seq<char>, Seq<char>), b: (Seq<char>, Seq<char>)| kf(a) == kf(b) implies #[trigger] kf(mf(a, b)) == kf(a) by {}
            lemma_keyed_insert_prefix(m, (key@, value@), kf, mf, i as int);
            lemma_keyed_insert_sorted(m, (key@, value@), kf, mf);
            lemma_meta_get_prefix(m, key@, i as int);
            assert(meta_insert(m, key@, value@) == keyed_insert(m, (key@, value@), kf, mf));
        }
        if found {
            let ghost rest = m.skip(i as int);
            assert(rest[0] == m[i as int]);
            let mut entries: Vec<(String, String)> = Vec::new();
            std::mem::swap(&mut entries, &mut self.entries);
            let old_entry = entries.remove(i);
            entries.insert(i, (key, value));
            proof {
                assert(entries@.map_values(|e: (String, String)| entry_view(e)) =~= m.take(i as int) + keyed_insert(rest, (key@, value@), kf, mf));
            }
            self.entries = entries;
            Some(old_entry.1)
        } else {
            let ghost rest = m.skip(i as int);
            let mut entries: Vec<(String, String)> = Vec::new();
            std::mem::swap(&mut entries, &mut self.entries);
            entries.insert(i, (key, value));
            proof {
                if i < m.len() {
                    assert(rest[0] == m[i as int]);
                    crate::domain::text::lemma_text_lt_irreflexive(key@);
                }
                assert(entries@.map_values(|e: (String, String)| entry_view(e)) =~= m.take(i as int) + keyed_insert(rest, (key@, value@), kf, mf));
                assert(meta_sorted(rest)) by {
                    assert forall|a: int, b: int| 0 <= a < b < rest.len() implies text_lt(entry_key(rest[a]), entry_key(rest[b])) by {
                        assert(rest[a] == m[a + i]);
                        assert(rest[b] == m[b + i]);
                    }
                }
                lemma_meta_get_absent(rest, key@);
            }
            self.entries = entries;
            None
        }
    }

    /// Inserts every entry of `other`, in order; entries of `other` win.
    pub fn extend(&mut self, other: Metadata)
        ensures
            final(self)@ == meta_extend(old(self)@, other@),
    {
        let mut i: usize = 0;
        let n = other.entries.len();
        assert(other@.skip(0) =~= other@);
        while i < n
            invariant
                n == other.entries.len(),
                other@.len() == n,
                i <= n,
                meta_extend(old(self)@, other@) == meta_extend(self@, other@.skip(i as int)),
            decreases n - i,
        {
            assert(other@[i as int] == entry_view(other.entries@[i as int]));
            let k = other.entries[i].0.clone();
            let v = other.entries[i].1.clone();
            let ghost before = self@;
            self.insert(k, v);
            assert(other@.skip(i as int).drop_first() =~= other@.skip(i + 1));
            assert(other@.skip(i as int)[0] == other@[i as int]);
            i += 1;
        }
        assert(other@.skip(n as int) =~= Seq::<(Seq<char>, Seq<char>)>::empty());
    }

    /// Whether two metadata maps hold the same entries.
    pub fn same(&self, other: &Metadata) -> (r: bool)
        ensures
            r == (self@ == other@),
    {
        if self.entries.len() != other.entries.len() {
            return false;
        }
        let mut i: usize = 0;
        while i < self.entries.len()
            invariant
                i <= self.entries.len(),
                self.entries.len() == other.entries.len(),
                self@.len() == other@.len(),
                self@.len() == self.entries.len(),
                forall|j: int| 0 <= j < i ==> self@[j] == other@[j],
            decreases self.entries.len() - i,
        {
            assert(self@[i as int] == entry_view(self.entries@[i as int]));
            assert(other@[i as int] == entry_view(other.entries@[i as int]));
            if self.entries[i].0 != other.entries[i].0 || self.entries[i].1 != other.entries[i].1 {
                return false;
            }
            i += 1;
        }
        assert(self@ =~= other@);
        true
    }
}

proof fn lemma_meta_get_prefix(m: Seq<(Seq<char>, Seq<char>)>, k: Seq<char>, i: int)
    requires
        0 <= i <= m.len(),
        forall|j: int| 0 <= j < i ==> text_lt(#[trigger] m[j].0, k),
    ensures
        meta_get(m, k) == meta_get(m.skip(i), k),
    decreases i,
{
    if i > 0 {
        crate::domain::text::lemma_text_lt_irreflexive(k);
        let t = m.drop_first();
        assert forall|j: int| 0 <= j < i - 1 implies text_lt(#[trigger] t[j].0, k) by {
            assert(t[j] == m[j + 1]);
        }
        lemma_meta_get_prefix(t, k, i - 1);
        assert(t.skip(i - 1) =~= m.skip(i));
    } else {
        assert(m.skip(0) =~= m);
    }
}

proof fn lemma_meta_get_absent(m: Seq<(Seq<char>, Seq<char>)>, k: Seq<char>)
    requires
        m.len() == 0 || text_lt(k, m[0].0),
        meta_sorted(m),
    ensures
        meta_get(m, k) is None,
    decreases m.len(),
{
    if m.len() > 0 {
        crate::domain::text::lemma_text_lt_irreflexive(k);
        let t = m.drop_first();
        if t.len() > 0 {
            assert(t[0] == m[1]);
            assert(text_lt(m[0].0, m[1].0));
            crate::domain::text::lemma_text_lt_transitive(k, m[0].0, m[1].0);
        }
        assert(meta_sorted(t)) by {
            assert forall|a: int, b: int| 0 <= a < b < t.len() implies text_lt(entry_key(t[a]), entry_key(t[b])) by {
                assert(t[a] == m[a + 1]);
                assert(t[b] == m[b + 1]);
            }
        }
        lemma_meta_get_absent(t, k);
    }
}

// ---------------------------------------------------------------------------
// Entities
// ---------------------------------------------------------------------------

/// The mathematical value of an entity.
pub struct EntityView {
    pub id: Seq<char>,
    pub kind: EntityKind,
    pub name: Seq<char>,
    pub metadata: Seq<(Seq<char>, Seq<char>)>,
}

#[derive(Debug, Clone)]
pub struct Entity {
    pub id: EntityId,
    pub kind: EntityKind,
    pub name: String,
    pub metadata: Metadata,
}

impl View for Entity {
    type V = EntityView;

    open spec fn view(&self) -> EntityView {
        EntityView { id: self.id@, kind: self.kind, name: self.name@, metadata: self.metadata@ }
    }
}

impl Entity {
    pub fn new(id: EntityId, kind: EntityKind, name: &str) -> (r: Self)
        ensures
            r@ == (EntityView { id: id@, kind: kind, name: name@, metadata: Seq::empty() }),
    {
        Entity { id, kind, name: owned(name), metadata: Metadata::new() }
    }

    /// An entity whose name is the given string.
    pub fn with_name(id: EntityId, kind: EntityKind, name: String) -> (r: Self)
        ensures
            r@ == (EntityView { id: id@, kind: kind, name: name@, metadata: Seq::empty() }),
    {
        Entity { id, kind, name, metadata: Metadata::new() }
    }

    /// A copy of this entity.
    pub fn duplicate(&self) -> (r: Self)
        ensures
            r@ == self@,
    {
        let mut metadata = Metadata::new();
        metadata.extend_copy(&self.metadata);
        Entity { id: self.id.duplicate(), kind: self.kind, name: self.name.clone(), metadata }
    }
}

impl Clone for Metadata {
    fn clone(&self) -> (r: Self)
        ensures
            r@ == self@,
    {
        let mut r = Metadata::new();
        r.extend_copy(self);
        r
    }
}

impl Metadata {
    /// Replaces an empty map by a copy of `other`.
    fn extend_copy(&mut self, other: &Metadata)
        requires
            old(self)@.len() == 0,
        ensures
            final(self)@ == other@,
    {
        proof {
            use_type_invariant(other);
        }
        let mut entries: Vec<(String, String)> = Vec::new();
        let mut i: usize = 0;
        while i < other.entries.len()
            invariant
                i <= other.entries.len(),
                other@.len() == other.entries.len(),
                entries@.map_values(|e: (String, String)| entry_view(e)) == other@.take(i as int),
            decreases other.entries.len() - i,
        {
            assert(other@[i as int] == entry_view(other.entries@[i as int]));
            let e = (other.entries[i].0.clone(), other.entries[i].1.clone());
            assert(entry_view(e) == other@[i as int]);
            let ghost before = entries@.map_values(|e: (String, String)| entry_view(e));
            entries.push(e);
            assert(entries@.map_values(|e: (String, String)| entry_view(e)) =~= before.push(entry_view(e)));
            assert(entries@.map_values(|e: (String, String)| entry_view(e)) =~= other@.take(i + 1));
            i += 1;
        }
        assert(other@.take(other@.len() as int) =~= other@);
        other.note_sorted();
        self.entries = entries;
    }
}

} // verus!
