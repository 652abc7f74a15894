use vstd::prelude::*;
use crate::backend::host::{FileSystem, FsAnswer, FsQuestion};
use crate::backend::nix::{file_id, pair_views, unresolved_path_entities, unresolved_paths};
use crate::backend::paths::{join_path, join_path_text, same_path, same_path_text};
use crate::backend::{
    backend_error_debug, backend_result_view, Backend, BackendError, BackendErrorView, BackendOutput,
    BackendOutputView, SystemContext, SystemContextView,
};
use crate::domain::confidence::Confidence;
use crate::domain::entity::{Entity, EntityId, EntityKind, EntityView};
use crate::domain::evidence::{Evidence, EvidenceView};
use crate::domain::graph_laws::{has_edge, lemma_relations_add_edges};
use crate::domain::graph::{plain_entity, plain_evidence, single_relation, with_entity, with_relation, EvidenceGraph, GraphView};
use crate::domain::query::{Query, QueryView};
use crate::domain::relation::{evidence_views, Relation, RelationKind};
use crate::domain::scan::{contains_char, split_on, split_text, views};
use crate::domain::text::{debug_quoted, debug_text, owned};

verus! {

// ---------------------------------------------------------------------------
// Where executables are looked for
// ---------------------------------------------------------------------------

/// The places where an executable named `name` is looked for: `name` itself
/// where it holds a slash, else `name` in each non-empty entry of the
/// colon-separated `path_env`, in order.
pub open spec fn executable_candidates(name: Seq<char>, path_env: Seq<char>) -> Seq<Seq<char>> {
    if name.contains('/') {
        seq![name]
    } else {
        split_on(path_env, ':').filter(|e: Seq<char>| e.len() > 0).map_values(|e: Seq<char>| join_path(e, name))
    }
}

/// Whether a candidate was accepted, from the answers to whether it is a
/// file and, where it is, whether it is executable.
pub open spec fn accepted(a: (bool, bool)) -> bool {
    a.0 && a.1
}

/// Whether `answers` are the replies to asking, candidate by candidate in
/// order, whether it is an executable file, stopping at the first yes.
pub open spec fn asked_in_order(cands: Seq<Seq<char>>, answers: Seq<(bool, bool)>) -> bool {
    &&& answers.len() <= cands.len()
    &&& forall|i: int| 0 <= i < answers.len() - 1 ==> !accepted(#[trigger] answers[i])
    &&& answers.len() < cands.len() ==> answers.len() > 0 && accepted(answers.last())
}

/// Whether `answers` are answers the file system may give when asked about
/// the candidates: whether each is a file, and, only where it is, whether
/// it is executable.
pub open spec fn candidates_read<F: FileSystem>(fs: F, cands: Seq<Seq<char>>, answers: Seq<(bool, bool)>) -> bool {
    forall|i: int|
        0 <= i < answers.len() && i < cands.len() ==> {
            &&& fs.may_answer(FsQuestion::IsFile(cands[i]), FsAnswer::Flag(#[trigger] answers[i].0))
            &&& answers[i].0 ==> fs.may_answer(FsQuestion::IsExecutable(cands[i]), FsAnswer::Flag(answers[i].1))
            &&& !answers[i].0 ==> !answers[i].1
        }
}

/// The candidate that the last reply accepted, if it did.
pub open spec fn found_candidate(cands: Seq<Seq<char>>, answers: Seq<(bool, bool)>) -> Option<Seq<char>> {
    if answers.len() > 0 && accepted(answers.last()) {
        Some(cands[answers.len() - 1])
    } else {
        None
    }
}

/// The candidate paths for an executable named `name`.
pub fn executable_candidate_list(name: &str, path_env: &str) -> (r: Vec<String>)
    ensures
        views(r@) == executable_candidates(name@, path_env@),
{
    if contains_char(name, '/') {
        let r = vec![owned(name)];
        assert(views(r@) =~= seq![name@]);
        return r;
    }
    let entries = split_text(path_env, ':');
    let ghost all = split_on(path_env@, ':');
    let ghost keep = |e: Seq<char>| e.len() > 0;
    let ghost put = |e: Seq<char>| join_path(e, name@);
    let mut r: Vec<String> = Vec::new();
    let mut i: usize = 0;
    while i < entries.len()
        invariant
            i <= entries.len(),
            views(entries@) == all,
            keep == (|e: Seq<char>| e.len() > 0),
            put == (|e: Seq<char>| join_path(e, name@)),
            views(r@) == all.take(i as int).filter(keep).map_values(put),
        decreases entries.len() - i,
    {
        proof {
            reveal_with_fuel(Seq::filter, 1);
            assert(all.take(i + 1).drop_last() =~= all.take(i as int));
            assert(all[i as int] == entries@[i as int]@);
        }
        let ghost before = all.take(i as int).filter(keep);
        let entry = entries[i].as_str();
        if entry.unicode_len() > 0 {
            let ghost rv = views(r@);
            r.push(join_path_text(entry, name));
            assert(views(r@) =~= rv.push(join_path(entries@[i as int]@, name@)));
            assert(all.take(i + 1).filter(keep) == before.push(entries@[i as int]@));
            assert(before.push(entries@[i as int]@).map_values(put) =~= before.map_values(put).push(put(entries@[i as int]@)));
        } else {
            assert(all.take(i + 1).filter(keep) == before);
        }
        i += 1;
    }
    assert(all.take(entries.len() as int) =~= all);
    r
}

/// Looks for an executable named `name`, asking the file system about each
/// candidate in turn; also gives the replies it got.
fn find_executable<F: FileSystem>(fs: &F, name: &str, path_env: &str) -> (r: (Option<String>, Ghost<Seq<(bool, bool)>>))
    ensures
        asked_in_order(executable_candidates(name@, path_env@), r.1@),
        candidates_read(*fs, executable_candidates(name@, path_env@), r.1@),
        match r.0 {
            Some(p) => found_candidate(executable_candidates(name@, path_env@), r.1@) == Some(p@),
            None => found_candidate(executable_candidates(name@, path_env@), r.1@) is None,
        },
{
    let cands = executable_candidate_list(name, path_env);
    let ghost cv = views(cands@);
    let ghost mut answers: Seq<(bool, bool)> = Seq::empty();
    let mut i: usize = 0;
    while i < cands.len()
        invariant
            i <= cands.len(),
            cv == views(cands@),
            cv == executable_candidates(name@, path_env@),
            answers.len() == i,
            forall|k: int| 0 <= k < i ==> !accepted(#[trigger] answers[k]),
            candidates_read(*fs, cv, answers),
        decreases cands.len() - i,
    {
        let candidate = cands[i].as_str();
        assert(cv[i as int] == candidate@);
        let file = fs.is_file(candidate);
        let executable = if file {
            fs.is_executable(candidate)
        } else {
            false
        };
        let ghost before = answers;
        proof {
            answers = answers.push((file, executable));
            assert forall|k: int| 0 <= k < answers.len() && k < cv.len() implies {
                &&& fs.may_answer(FsQuestion::IsFile(cv[k]), FsAnswer::Flag(#[trigger] answers[k].0))
                &&& answers[k].0 ==> fs.may_answer(FsQuestion::IsExecutable(cv[k]), FsAnswer::Flag(answers[k].1))
                &&& !answers[k].0 ==> !answers[k].1
            } by {
                if k < i {
                    assert(answers[k] == before[k]);
                }
            }
        }
        if file && executable {
            assert(cv[i as int] == cands@[i as int]@);
            return (Some(cands[i].clone()), Ghost(answers));
        }
        i += 1;
    }
    (None, Ghost(answers))
}

// ---------------------------------------------------------------------------
// What the backend adds to the graph
// ---------------------------------------------------------------------------

/// The entity of a path.
pub open spec fn path_entity(path: Seq<char>, kind: EntityKind) -> EntityView {
    plain_entity(file_id(path), kind, path)
}

/// The evidence that a path resolves to its canonical form.
pub open spec fn canonical_evidence() -> EvidenceView {
    plain_evidence("filesystem"@, "std::fs::canonicalize"@, "Path resolves to this canonical target"@, Confidence::Exact)
}

/// What recording where `path` resolves does to graph `g`, given what
/// canonicalizing it gave: the graph after, and the error, if any.
pub open spec fn canonical_step(
    g: GraphView,
    from: Seq<char>,
    path: Seq<char>,
    canonical: Result<Seq<char>, Seq<char>>,
) -> (GraphView, Option<BackendErrorView>) {
    match canonical {
        Err(e) => (g, Some(BackendErrorView::Failed("failed to canonicalize "@ + path + ": "@ + e))),
        Ok(c) => if same_path(c, path) {
            (g, None)
        } else if c.len() == 0 {
            (g, Some(BackendErrorView::Failed("empty filesystem path"@)))
        } else {
            (
                with_relation(
                    with_entity(g, path_entity(c, EntityKind::File)),
                    single_relation(from, file_id(c), RelationKind::ResolvesTo, Confidence::Exact, canonical_evidence()),
                ),
                None,
            )
        },
    }
}

/// An output with no match and one gap.
pub open spec fn only_incomplete(message: Seq<char>) -> BackendOutputView {
    BackendOutputView { matches: Seq::empty(), incomplete: seq![message] }
}

/// What the backend does with graph `g` for a path it found, given what
/// canonicalizing the path gave.
pub open spec fn path_found(
    g: GraphView,
    path: Seq<char>,
    kind: EntityKind,
    canonical: Result<Seq<char>, Seq<char>>,
) -> (GraphView, Result<BackendOutputView, BackendErrorView>) {
    if path.len() == 0 {
        (g, Err(BackendErrorView::Failed("empty filesystem path"@)))
    } else {
        let (g1, e) = canonical_step(with_entity(g, path_entity(path, kind)), file_id(path), path, canonical);
        match e {
            Some(err) => (g1, Err(err)),
            None => (g1, Ok(BackendOutputView { matches: seq![file_id(path)], incomplete: Seq::empty() })),
        }
    }
}

/// What the backend does with graph `g` for an executable name, given the
/// search path, the replies about the candidates and what canonicalizing
/// the one found gave.
pub open spec fn filesystem_auto(
    g: GraphView,
    name: Seq<char>,
    path_env: Option<Seq<char>>,
    answers: Seq<(bool, bool)>,
    canonical: Result<Seq<char>, Seq<char>>,
) -> (GraphView, Result<BackendOutputView, BackendErrorView>) {
    match path_env {
        None => (g, Ok(only_incomplete("filesystem could not search PATH because PATH is unset"@))),
        Some(pe) => match found_candidate(executable_candidates(name, pe), answers) {
            None => (g, Ok(only_incomplete("filesystem could not find executable "@ + debug_quoted(name) + " in PATH"@))),
            Some(p) => path_found(g, p, EntityKind::Executable, canonical),
        },
    }
}

/// What the backend does with graph `g` for a path, given whether it
/// exists, whether it is executable and what canonicalizing it gave.
pub open spec fn filesystem_file(
    g: GraphView,
    path: Seq<char>,
    exists: bool,
    executable: bool,
    canonical: Result<Seq<char>, Seq<char>>,
) -> (GraphView, Result<BackendOutputView, BackendErrorView>) {
    if !exists {
        (g, Ok(only_incomplete("filesystem could not find path "@ + path)))
    } else {
        path_found(g, path, if executable { EntityKind::Executable } else { EntityKind::File }, canonical)
    }
}

/// The graph and the gaps after resolving each candidate path entity in
/// turn, given for each whether its path exists and what canonicalizing it
/// gave; a path that does not exist is passed over.
pub open spec fn enrich_paths_fold(
    g: GraphView,
    cands: Seq<(Seq<char>, Seq<char>)>,
    facts: Seq<(bool, Result<Seq<char>, Seq<char>>)>,
) -> (GraphView, Seq<Seq<char>>)
    decreases cands.len(),
{
    if cands.len() == 0 || facts.len() == 0 {
        (g, Seq::empty())
    } else {
        let (g1, inc) = enrich_paths_fold(g, cands.drop_last(), facts.drop_last());
        let (id, path) = cands.last();
        if !facts.last().0 {
            (g1, inc)
        } else {
            let (g2, e) = canonical_step(g1, id, path, facts.last().1);
            match e {
                None => (g2, inc),
                Some(err) => (g2, inc.push("filesystem could not resolve "@ + path + ": "@ + backend_error_debug(err))),
            }
        }
    }
}

/// What was read from the file system for one query.
pub struct FsFacts {
    pub answers: Seq<(bool, bool)>,
    pub exists: bool,
    pub executable: bool,
    pub canonical: Result<Seq<char>, Seq<char>>,
    pub enrich: Seq<(bool, Result<Seq<char>, Seq<char>>)>,
}

/// Whether turning `g0` into `g1` with result `r` is what the filesystem
/// backend does for `q` with search path `path_env`, given what was read.
pub open spec fn filesystem_outcome(
    path_env: Option<Seq<char>>,
    q: QueryView,
    g0: GraphView,
    g1: GraphView,
    r: Result<BackendOutputView, BackendErrorView>,
    f: FsFacts,
) -> bool {
    match q {
        QueryView::Auto(name) => {
            &&& (path_env matches Some(pe) ==> asked_in_order(executable_candidates(name, pe), f.answers))
            &&& (g1, r) == filesystem_auto(g0, name, path_env, f.answers, f.canonical)
        },
        QueryView::File(path) => (g1, r) == filesystem_file(g0, path, f.exists, f.executable, f.canonical),
        QueryView::Process(_) | QueryView::Service(_) => {
            &&& f.enrich.len() == unresolved_paths(g0).len()
            &&& g1 == enrich_paths_fold(g0, unresolved_paths(g0), f.enrich).0
            &&& r == Ok::<BackendOutputView, BackendErrorView>(
                BackendOutputView { matches: Seq::empty(), incomplete: enrich_paths_fold(g0, unresolved_paths(g0), f.enrich).1 },
            )
        },
        _ => g1 == g0 && r == Err::<BackendOutputView, BackendErrorView>(BackendErrorView::UnsupportedQuery),
    }
}

/// Whether what was read holds answers the file system may give to what
/// the filesystem backend asks for `q` on `g0` with search path `path_env`:
/// about the candidates of an executable name, and the canonical form of
/// the one found; whether a path exists, whether it is executable and its
/// canonical form; whether each path to resolve exists and its canonical
/// form.
pub open spec fn filesystem_read<F: FileSystem>(fs: F, path_env: Option<Seq<char>>, g0: GraphView, q: QueryView, f: FsFacts) -> bool {
    match q {
        QueryView::Auto(name) => match path_env {
            Some(pe) => {
                let cands = executable_candidates(name, pe);
                &&& candidates_read(fs, cands, f.answers)
                &&& (found_candidate(cands, f.answers) matches Some(p) ==> (p.len() > 0 ==> fs.may_answer(
                    FsQuestion::Canonicalize(p),
                    FsAnswer::Path(f.canonical),
                )))
            },
            None => true,
        },
        QueryView::File(path) => {
            &&& fs.may_answer(FsQuestion::Exists(path), FsAnswer::Flag(f.exists))
            &&& f.exists ==> fs.may_answer(FsQuestion::IsExecutable(path), FsAnswer::Flag(f.executable))
            &&& f.exists && path.len() > 0 ==> fs.may_answer(FsQuestion::Canonicalize(path), FsAnswer::Path(f.canonical))
        },
        QueryView::Process(_) | QueryView::Service(_) => forall|k: int|
            0 <= k < f.enrich.len() && k < unresolved_paths(g0).len() ==> {
                &&& fs.may_answer(FsQuestion::Exists(unresolved_paths(g0)[k].1), FsAnswer::Flag(#[trigger] f.enrich[k].0))
                &&& f.enrich[k].0 ==> fs.may_answer(
                    FsQuestion::Canonicalize(unresolved_paths(g0)[k].1),
                    FsAnswer::Path(f.enrich[k].1),
                )
            },
        _ => true,
    }
}

/// Whether turning `before` into `after` with result `r` is what the
/// filesystem backend does for `q` with search path `path_env`, asking
/// `fs`, for some answers the file system may give.
pub open spec fn filesystem_investigated<F: FileSystem>(
    fs: F,
    path_env: Option<Seq<char>>,
    q: QueryView,
    before: GraphView,
    after: GraphView,
    r: Result<BackendOutputView, BackendErrorView>,
) -> bool {
    exists|f: FsFacts| #[trigger] filesystem_read(fs, path_env, before, q, f) && filesystem_outcome(path_env, q, before, after, r, f)
}

fn single_evidence(ev: Evidence) -> (r: Vec<Evidence>)
    ensures
        evidence_views(r@) == seq![ev@],
{
    let r = vec![ev];
    assert(evidence_views(r@) =~= seq![ev@]);
    r
}

/// The identifier of the entity of a path.
fn file_entity_id(path: &str) -> (r: EntityId)
    ensures
        r@ == file_id(path@),
{
    let mut id = owned("file:");
    id.append(path);
    EntityId::from_string(id)
}

/// Adds the entity of a non-empty path.
fn add_path_entity(graph: &mut EvidenceGraph, path: &str, kind: EntityKind) -> (r: Result<EntityId, BackendError>)
    ensures
        path@.len() == 0 ==> final(graph)@ == old(graph)@ && (r matches Err(e) && e@ == BackendErrorView::Failed("empty filesystem path"@)),
        path@.len() > 0 ==> final(graph)@ == with_entity(old(graph)@, path_entity(path@, kind)) && (r matches Ok(id) && id@ == file_id(path@)),
{
    if path.unicode_len() == 0 {
        return Err(BackendError::Failed(owned("empty filesystem path")));
    }
    Ok(graph.add_entity(Entity::new(file_entity_id(path), kind, path)))
}

/// Records where `path` resolves, asking the file system for its canonical
/// form; also gives what the file system replied.
fn add_canonical_relation<F: FileSystem>(
    fs: &F,
    graph: &mut EvidenceGraph,
    from_id: &EntityId,
    path: &str,
) -> (r: (Result<(), BackendError>, Ghost<Result<Seq<char>, Seq<char>>>))
    ensures
        fs.may_answer(FsQuestion::Canonicalize(path@), FsAnswer::Path(r.1@)),
        (final(graph)@, match r.0 { Ok(_) => None, Err(e) => Some(e@) }) == canonical_step(old(graph)@, from_id@, path@, r.1@),
{
    let canonical = fs.canonicalize(path);
    let ghost seen: Result<Seq<char>, Seq<char>> = match &canonical {
        Ok(c) => Ok(c@),
        Err(e) => Err(e@),
    };
    let canonical = match canonical {
        Ok(c) => c,
        Err(error) => {
            let mut m = owned("failed to canonicalize ");
            m.append(path);
            m.append(": ");
            m.append(error.as_str());
            return (Err(BackendError::Failed(m)), Ghost(seen));
        },
    };
    if same_path_text(canonical.as_str(), path) {
        return (Ok(()), Ghost(seen));
    }
    let canonical_id = match add_path_entity(graph, canonical.as_str(), EntityKind::File) {
        Ok(id) => id,
        Err(e) => return (Err(e), Ghost(seen)),
    };
    let ev = single_evidence(
        Evidence::new("filesystem", "std::fs::canonicalize", "Path resolves to this canonical target", Confidence::Exact),
    );
    graph.add_relation(Relation::new(from_id.duplicate(), canonical_id, RelationKind::ResolvesTo, Confidence::Exact, ev));
    (Ok(()), Ghost(seen))
}

/// Runs the filesystem backend on a graph, asking a file system about
/// paths and searching executables in a search path.
pub struct FileSystemBackend<F> {
    path_env: Option<String>,
    fs: F,
}

impl<F> FileSystemBackend<F> {
    /// The search path, where there is one.
    pub closed spec fn path_env_of(&self) -> Option<Seq<char>> {
        match &self.path_env {
            Some(p) => Some(p@),
            None => None,
        }
    }

    /// The file system this backend asks.
    pub closed spec fn fs_of(&self) -> F {
        self.fs
    }

    /// A backend that searches the search path of `context`.
    pub fn from_context(context: &SystemContext, fs: F) -> (r: Self)
        ensures
            r.path_env_of() == context@.path_env,
            r.fs_of() == fs,
    {
        let path_env = match &context.path_env {
            Some(p) => Some(p.clone()),
            None => None,
        };
        FileSystemBackend { path_env, fs }
    }

    /// A backend that searches `path_env`.
    pub fn with_path_env(path_env: &str, fs: F) -> (r: Self)
        ensures
            r.path_env_of() == Some(path_env@),
            r.fs_of() == fs,
    {
        FileSystemBackend { path_env: Some(owned(path_env)), fs }
    }
}

impl<F: FileSystem> FileSystemBackend<F> {
    fn investigate_auto(&self, name: &str, graph: &mut EvidenceGraph) -> (r: (Result<BackendOutput, BackendError>, Ghost<FsFacts>))
        ensures
            filesystem_read(self.fs_of(), self.path_env_of(), old(graph)@, QueryView::Auto(name@), r.1@),
            filesystem_outcome(self.path_env_of(), QueryView::Auto(name@), old(graph)@, final(graph)@, backend_result_view(r.0), r.1@),
    {
        let ghost g0 = graph@;
        let ghost none_read = FsFacts {
            answers: Seq::empty(),
            exists: false,
            executable: false,
            canonical: Err(Seq::empty()),
            enrich: Seq::empty(),
        };
        let path_env = match &self.path_env {
            Some(p) => p,
            None => {
                let out = BackendOutput::new().with_incomplete(owned("filesystem could not search PATH because PATH is unset"));
                assert(out@ == only_incomplete("filesystem could not search PATH because PATH is unset"@));
                return (Ok(out), Ghost(none_read));
            },
        };
        let (found, Ghost(answers)) = find_executable(&self.fs, name, path_env.as_str());
        let ghost asked = FsFacts { answers, ..none_read };
        let path = match found {
            Some(p) => p,
            None => {
                let mut m = owned("filesystem could not find executable ");
                m.append(debug_text(name).as_str());
                m.append(" in PATH");
                let out = BackendOutput::new().with_incomplete(m);
                assert(out@ == only_incomplete("filesystem could not find executable "@ + debug_quoted(name@) + " in PATH"@));
                return (Ok(out), Ghost(asked));
            },
        };
        let entity_id = match add_path_entity(graph, path.as_str(), EntityKind::Executable) {
            Ok(id) => id,
            Err(e) => return (Err(e), Ghost(asked)),
        };
        let (resolved, Ghost(canonical)) = add_canonical_relation(&self.fs, graph, &entity_id, path.as_str());
        let ghost facts = FsFacts { canonical, ..asked };
        match resolved {
            Err(e) => (Err(e), Ghost(facts)),
            Ok(()) => {
                let out = BackendOutput::new().with_match(entity_id);
                assert(out@.matches =~= seq![file_id(path@)]);
                (Ok(out), Ghost(facts))
            },
        }
    }

    fn investigate_file(&self, path: &str, graph: &mut EvidenceGraph) -> (r: (Result<BackendOutput, BackendError>, Ghost<FsFacts>))
        ensures
            filesystem_read(self.fs_of(), self.path_env_of(), old(graph)@, QueryView::File(path@), r.1@),
            filesystem_outcome(self.path_env_of(), QueryView::File(path@), old(graph)@, final(graph)@, backend_result_view(r.0), r.1@),
    {
        let ghost none_read = FsFacts {
            answers: Seq::empty(),
            exists: false,
            executable: false,
            canonical: Err(Seq::empty()),
            enrich: Seq::empty(),
        };
        if !self.fs.path_exists(path) {
            let mut m = owned("filesystem could not find path ");
            m.append(path);
            let out = BackendOutput::new().with_incomplete(m);
            assert(out@ == only_incomplete("filesystem could not find path "@ + path@));
            return (Ok(out), Ghost(none_read));
        }
        let executable = self.fs.is_executable(path);
        let kind = if executable {
            EntityKind::Executable
        } else {
            EntityKind::File
        };
        let ghost seen = FsFacts { exists: true, executable, ..none_read };
        let entity_id = match add_path_entity(graph, path, kind) {
            Ok(id) => id,
            Err(e) => return (Err(e), Ghost(seen)),
        };
        let (resolved, Ghost(canonical)) = add_canonical_relation(&self.fs, graph, &entity_id, path);
        let ghost facts = FsFacts { canonical, ..seen };
        match resolved {
            Err(e) => (Err(e), Ghost(facts)),
            Ok(()) => {
                let out = BackendOutput::new().with_match(entity_id);
                assert(out@.matches =~= seq![file_id(path@)]);
                (Ok(out), Ghost(facts))
            },
        }
    }

    fn enrich_existing_paths(&self, graph: &mut EvidenceGraph) -> (r: (BackendOutput, Ghost<Seq<(bool, Result<Seq<char>, Seq<char>>)>>))
        ensures
            forall|k: int|
                0 <= k < r.1@.len() ==> {
                    &&& self.fs_of().may_answer(
                        FsQuestion::Exists(unresolved_paths(old(graph)@)[k].1),
                        FsAnswer::Flag(#[trigger] r.1@[k].0),
                    )
                    &&& r.1@[k].0 ==> self.fs_of().may_answer(
                        FsQuestion::Canonicalize(unresolved_paths(old(graph)@)[k].1),
                        FsAnswer::Path(r.1@[k].1),
                    )
                },
            r.1@.len() == unresolved_paths(old(graph)@).len(),
            final(graph)@ == enrich_paths_fold(old(graph)@, unresolved_paths(old(graph)@), r.1@).0,
            r.0@ == (BackendOutputView {
                matches: Seq::empty(),
                incomplete: enrich_paths_fold(old(graph)@, unresolved_paths(old(graph)@), r.1@).1,
            }),
    {
        let ghost g0 = graph@;
        let cands = unresolved_path_entities(graph);
        let ghost cv = pair_views(cands@);
        let mut output = BackendOutput::new();
        let ghost mut facts: Seq<(bool, Result<Seq<char>, Seq<char>>)> = Seq::empty();
        let mut i: usize = 0;
        while i < cands.len()
            invariant
                i <= cands.len(),
                cv == pair_views(cands@),
                cv == unresolved_paths(g0),
                facts.len() == i,
                forall|k: int|
                    0 <= k < facts.len() ==> {
                        &&& self.fs_of().may_answer(FsQuestion::Exists(cv[k].1), FsAnswer::Flag(#[trigger] facts[k].0))
                        &&& facts[k].0 ==> self.fs_of().may_answer(FsQuestion::Canonicalize(cv[k].1), FsAnswer::Path(facts[k].1))
                    },
                (graph@, output@.incomplete) == enrich_paths_fold(g0, cv.take(i as int), facts),
                output@.matches == Seq::<Seq<char>>::empty(),
            decreases cands.len() - i,
        {
            let ghost before = facts;
            proof {
                assert(cv.take(i + 1).drop_last() =~= cv.take(i as int));
                assert(cv.take(i + 1).last() == (cands@[i as int].0@, cands@[i as int].1@));
            }
            let path = cands[i].1.as_str();
            assert(cv[i as int].1 == path@);
            if !self.fs.path_exists(path) {
                proof {
                    facts = facts.push((false, Err(Seq::empty())));
                    assert(facts.drop_last() =~= before);
                    assert forall|k: int| 0 <= k < facts.len() implies {
                        &&& self.fs_of().may_answer(FsQuestion::Exists(cv[k].1), FsAnswer::Flag(#[trigger] facts[k].0))
                        &&& facts[k].0 ==> self.fs_of().may_answer(FsQuestion::Canonicalize(cv[k].1), FsAnswer::Path(facts[k].1))
                    } by {
                        if k < i {
                            assert(facts[k] == before[k]);
                        }
                    }
                }
            } else {
                let (resolved, Ghost(canonical)) = add_canonical_relation(&self.fs, graph, &cands[i].0, path);
                proof {
                    facts = facts.push((true, canonical));
                    assert(facts.drop_last() =~= before);
                    assert forall|k: int| 0 <= k < facts.len() implies {
                        &&& self.fs_of().may_answer(FsQuestion::Exists(cv[k].1), FsAnswer::Flag(#[trigger] facts[k].0))
                        &&& facts[k].0 ==> self.fs_of().may_answer(FsQuestion::Canonicalize(cv[k].1), FsAnswer::Path(facts[k].1))
                    } by {
                        if k < i {
                            assert(facts[k] == before[k]);
                        }
                    }
                }
                if let Err(error) = resolved {
                    let mut m = owned("filesystem could not resolve ");
                    m.append(path);
                    m.append(": ");
                    m.append(error.debug_string().as_str());
                    output = output.with_incomplete(m);
                }
            }
            i += 1;
        }
        assert(cv.take(cands.len() as int) =~= cv);
        (output, Ghost(facts))
    }
}

impl<F: FileSystem> Backend for FileSystemBackend<F> {
    open spec fn spec_name(&self) -> Seq<char> {
        "filesystem"@
    }

    open spec fn spec_supports(&self, query: QueryView) -> bool {
        query is Auto || query is File || query is Process || query is Service
    }

    open spec fn spec_detected(&self, context: SystemContextView, r: bool) -> bool {
        r
    }

    open spec fn spec_investigated(
        &self,
        query: QueryView,
        before: GraphView,
        after: GraphView,
        r: Result<BackendOutputView, BackendErrorView>,
    ) -> bool {
        filesystem_investigated(self.fs_of(), self.path_env_of(), query, before, after, r)
    }

    fn name(&self) -> (r: &'static str) {
        "filesystem"
    }

    fn detect(&self, _context: &SystemContext) -> (r: bool) {
        true
    }

    fn supports(&self, query: &Query) -> (r: bool) {
        match query {
            Query::Auto(_) | Query::File(_) | Query::Process(_) | Query::Service(_) => true,
            _ => false,
        }
    }

    fn investigate(&self, query: &Query, graph: &mut EvidenceGraph) -> (r: Result<BackendOutput, BackendError>) {
        let ghost g0 = graph@;
        match query {
            Query::Auto(name) => {
                let (r, Ghost(f)) = self.investigate_auto(name.as_str(), graph);
                assert(filesystem_outcome(self.path_env_of(), query@, g0, graph@, backend_result_view(r), f));
                assert(filesystem_read(self.fs_of(), self.path_env_of(), g0, query@, f));
                r
            },
            Query::File(path) => {
                let (r, Ghost(f)) = self.investigate_file(path.as_str(), graph);
                assert(filesystem_outcome(self.path_env_of(), query@, g0, graph@, backend_result_view(r), f));
                assert(filesystem_read(self.fs_of(), self.path_env_of(), g0, query@, f));
                r
            },
            Query::Process(_) | Query::Service(_) => {
                let (out, Ghost(enrich)) = self.enrich_existing_paths(graph);
                let ghost f = FsFacts {
                    answers: Seq::empty(),
                    exists: false,
                    executable: false,
                    canonical: Err(Seq::empty()),
                    enrich,
                };
                assert(filesystem_outcome(self.path_env_of(), query@, g0, graph@, backend_result_view(Ok(out)), f));
                assert(filesystem_read(self.fs_of(), self.path_env_of(), g0, query@, f));
                Ok(out)
            },
            _ => {
                let ghost f = FsFacts {
                    answers: Seq::empty(),
                    exists: false,
                    executable: false,
                    canonical: Err(Seq::empty()),
                    enrich: Seq::empty(),
                };
                assert(filesystem_outcome(self.path_env_of(), query@, g0, graph@, backend_result_view(Err(BackendError::UnsupportedQuery)), f));
                assert(filesystem_read(self.fs_of(), self.path_env_of(), g0, query@, f));
                Err(BackendError::UnsupportedQuery)
            },
        }
    }
}

/// The filesystem backend depends on its search path and its file system
/// alone: two backends that search the same path and ask the same file
/// system, such as one made by `with_path_env(p, fs)` and one made by
/// `from_context` from a context whose search path is `p` with the same
/// `fs`, allow the same outcomes for every query and graph.
pub proof fn law_same_search_path_investigates_alike<F: FileSystem>(
    a: FileSystemBackend<F>,
    b: FileSystemBackend<F>,
    query: QueryView,
    before: GraphView,
    after: GraphView,
    r: Result<BackendOutputView, BackendErrorView>,
)
    requires
        a.path_env_of() == b.path_env_of(),
        a.fs_of() == b.fs_of(),
    ensures
        a.spec_investigated(query, before, after, r) == b.spec_investigated(query, before, after, r),
{
}

/// The filesystem backend takes file paths, executable names, processes
/// and services: a service query is one it works on, resolving the files
/// the graph already names; a package, port or store path query is not.
pub proof fn law_filesystem_query_kinds<F: FileSystem>(b: FileSystemBackend<F>, q: QueryView)
    ensures
        q is Auto || q is File || q is Process || q is Service ==> b.spec_supports(q),
        q is Package || q is Port || q is StorePath ==> !b.spec_supports(q),
{
}

proof fn lemma_canonical_keeps_edges(g: GraphView, from: Seq<char>, path: Seq<char>, canonical: Result<Seq<char>, Seq<char>>)
    ensures
        forall|a: Seq<char>, b: Seq<char>, kind: RelationKind|
            has_edge(g.relations, a, b, kind) ==> #[trigger] has_edge(canonical_step(g, from, path, canonical).0.relations, a, b, kind),
{
    if let Ok(c) = canonical {
        if !same_path(c, path) && c.len() > 0 {
            let ge = with_entity(g, path_entity(c, EntityKind::File));
            let r = single_relation(from, file_id(c), RelationKind::ResolvesTo, Confidence::Exact, canonical_evidence());
            lemma_relations_add_edges(ge.relations, r);
        }
    }
}

/// Resolving the paths already in the graph records where each leads: for
/// every candidate path that exists and whose canonical form is another,
/// non-empty path, the graph afterwards holds a `ResolvesTo` relation from
/// the candidate's entity to the entity of the canonical path. This is what
/// the filesystem backend does for process and service queries.
pub proof fn law_existing_paths_are_resolved(
    g: GraphView,
    cands: Seq<(Seq<char>, Seq<char>)>,
    facts: Seq<(bool, Result<Seq<char>, Seq<char>>)>,
    k: int,
    c: Seq<char>,
)
    requires
        0 <= k < cands.len(),
        facts.len() == cands.len(),
        facts[k].0,
        facts[k].1 == Ok::<Seq<char>, Seq<char>>(c),
        !same_path(c, cands[k].1),
        c.len() > 0,
    ensures
        has_edge(enrich_paths_fold(g, cands, facts).0.relations, cands[k].0, file_id(c), RelationKind::ResolvesTo),
    decreases cands.len(),
{
    let g1 = enrich_paths_fold(g, cands.drop_last(), facts.drop_last()).0;
    if k == cands.len() - 1 {
        let ge = with_entity(g1, path_entity(c, EntityKind::File));
        let r = single_relation(cands[k].0, file_id(c), RelationKind::ResolvesTo, Confidence::Exact, canonical_evidence());
        lemma_relations_add_edges(ge.relations, r);
        assert(cands.last() == cands[k] && facts.last() == facts[k]);
        assert(canonical_step(g1, cands[k].0, cands[k].1, facts[k].1).0 == with_relation(ge, r));
    } else {
        assert(cands.drop_last()[k] == cands[k] && facts.drop_last()[k] == facts[k]);
        law_existing_paths_are_resolved(g, cands.drop_last(), facts.drop_last(), k, c);
        lemma_canonical_keeps_edges(g1, cands.last().0, cands.last().1, facts.last().1);
    }
}

} // verus!
