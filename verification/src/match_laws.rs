use vstd::prelude::*;
use crate::backend::command::{CommandOutputView, CommandRunner};
use crate::backend::host::FileSystem;
use crate::backend::filesystem::{
    canonical_step, enrich_paths_fold, executable_candidates, filesystem_investigated, filesystem_outcome, filesystem_read,
    found_candidate, path_entity, path_found, FsFacts,
};
use crate::backend::nix::{
    roots_asked, add_belongs, add_roots, belongs_fold, file_id, nix_investigation, nix_query_step, roots_fold, roots_outcome,
    store_paths_of, unresolved_paths,
};
use crate::backend::procfs::{enrich_fold, pids_of, procfs_investigated, procfs_outcome, procfs_pid, procfs_read, PidFacts};
use crate::backend::systemd::{add_fragment, add_main_pid, show_asked, systemd_investigation};
use crate::backend::{BackendErrorView, BackendOutputView, SystemContextView};
use crate::domain::entity::{EntityKind, EntityView};
use crate::domain::graph::{entity_key, find_entity, merge_entity, with_entity, with_relation, GraphView};
use crate::domain::graph_laws::lemma_find_entity_found;
use crate::domain::keyed::{has_key, keyed_insert};
use crate::domain::query::QueryView;
use crate::engine::{backend_investigated, backend_supports, engine_outcome, run_steps, BackendStep, InvestigationView};

verus! {

/// Whether the graph holds an entity with identifier `id`.
pub open spec fn present(g: GraphView, id: Seq<char>) -> bool {
    has_key(g.entities, id, |x: EntityView| entity_key(x))
}

/// Whether every entity identifier of `g1` is still in `g2`.
pub open spec fn grows(g1: GraphView, g2: GraphView) -> bool {
    forall|id: Seq<char>| #![trigger present(g2, id)] present(g1, id) ==> present(g2, id)
}

proof fn lemma_keyed_insert_keys<T>(s: Seq<T>, x: T, key: spec_fn(T) -> Seq<char>, merge: spec_fn(T, T) -> T)
    requires
        forall|a: T, b: T| key(a) == key(b) ==> #[trigger] key(merge(a, b)) == key(a),
    ensures
        has_key(keyed_insert(s, x, key, merge), key(x), key),
        forall|k: Seq<char>| has_key(s, k, key) ==> #[trigger] has_key(keyed_insert(s, x, key, merge), k, key),
    decreases s.len(),
{
    let r = keyed_insert(s, x, key, merge);
    if s.len() == 0 {
        assert(key(r[0]) == key(x));
    } else if key(s[0]) == key(x) {
        assert(key(r[0]) == key(x));
        assert forall|k: Seq<char>| has_key(s, k, key) implies #[trigger] has_key(r, k, key) by {
            let j = choose|j: int| 0 <= j < s.len() && key(s[j]) == k;
            if j == 0 {
                assert(key(r[0]) == k);
            } else {
                assert(r[j] == s[j]);
            }
        }
    } else if crate::domain::text::text_lt(key(x), key(s[0])) {
        assert(r[0] == x);
        assert forall|k: Seq<char>| has_key(s, k, key) implies #[trigger] has_key(r, k, key) by {
            let j = choose|j: int| 0 <= j < s.len() && key(s[j]) == k;
            assert(r[j + 1] == s[j]);
        }
    } else {
        let rest = s.drop_first();
        lemma_keyed_insert_keys(rest, x, key, merge);
        let t = keyed_insert(rest, x, key, merge);
        assert(r == seq![s[0]] + t);
        let i = choose|i: int| 0 <= i < t.len() && key(t[i]) == key(x);
        assert(r[i + 1] == t[i]);
        assert forall|k: Seq<char>| has_key(s, k, key) implies #[trigger] has_key(r, k, key) by {
            let j = choose|j: int| 0 <= j < s.len() && key(s[j]) == k;
            assert(0 <= j < s.len());
            if j == 0 {
                assert(r[0] == s[0]);
            } else {
                assert(rest[j - 1] == s[j]);
                assert(has_key(rest, k, key));
                assert(has_key(t, k, key));
                let m = choose|m: int| 0 <= m < t.len() && key(t[m]) == k;
                assert(r == seq![s[0]] + t);
                assert((seq![s[0]] + t)[m + 1] == t[m]);
            }
        }
    }
}

/// Adding an entity puts its identifier in the graph and keeps every other.
pub proof fn lemma_with_entity_grows(g: GraphView, e: EntityView)
    ensures
        present(with_entity(g, e), e.id),
        grows(g, with_entity(g, e)),
{
    let kf = |x: EntityView| entity_key(x);
    let mf = |a: EntityView, b: EntityView| merge_entity(a, b);
    assert forall|a: EntityView, b: EntityView| kf(a) == kf(b) implies #[trigger] kf(mf(a, b)) == kf(a) by {}
    lemma_keyed_insert_keys(g.entities, e, kf, mf);
    assert(with_entity(g, e).entities == keyed_insert(g.entities, e, kf, mf));
}

/// Adding entities and relations keeps every entity identifier.
proof fn lemma_additions_grow()
    ensures
        forall|g: GraphView, e: EntityView| grows(g, #[trigger] with_entity(g, e)) && present(with_entity(g, e), e.id),
        forall|g: GraphView, r: crate::domain::relation::RelationView| grows(g, #[trigger] with_relation(g, r)),
{
    assert forall|g: GraphView, e: EntityView| grows(g, #[trigger] with_entity(g, e)) && present(with_entity(g, e), e.id) by {
        lemma_with_entity_grows(g, e);
    }
}

// ---------------------------------------------------------------------------
// Each backend keeps the entities and adds its matches
// ---------------------------------------------------------------------------

/// Whether every match of a successful result is an entity of `g`.
pub open spec fn matches_present(g: GraphView, r: Result<BackendOutputView, BackendErrorView>) -> bool {
    r matches Ok(o) ==> forall|i: int| 0 <= i < o.matches.len() ==> present(g, #[trigger] o.matches[i])
}

proof fn lemma_roots_grow(g: GraphView, from: Seq<char>, roots: Seq<Seq<char>>)
    ensures
        grows(g, add_roots(g, from, roots)),
    decreases roots.len(),
{
    lemma_additions_grow();
    if roots.len() > 0 {
        lemma_roots_grow(g, from, roots.drop_last());
        let g1 = add_roots(g, from, roots.drop_last());
        let e = crate::domain::graph::plain_entity(file_id(roots.last()), EntityKind::File, roots.last());
        assert(grows(g1, with_entity(g1, e)));
        let g2 = with_entity(g1, e);
        assert(grows(g2, with_relation(g2, crate::backend::nix::reachable_relation(from, roots.last()))));
    }
}

proof fn lemma_belongs_grow(g: GraphView, from: Seq<char>, sp: Seq<char>)
    ensures
        grows(g, add_belongs(g, from, sp)),
        present(add_belongs(g, from, sp), crate::backend::nix::store_id(sp)),
{
    lemma_additions_grow();
    let e = crate::domain::graph::plain_entity(crate::backend::nix::store_id(sp), EntityKind::StorePath, sp);
    assert(grows(g, with_entity(g, e)) && present(with_entity(g, e), e.id));
    let g1 = with_entity(g, e);
    assert(grows(g1, with_relation(g1, crate::backend::nix::belongs_relation(from, sp))));
    assert(with_relation(g1, crate::backend::nix::belongs_relation(from, sp)).entities == g1.entities);
}

proof fn lemma_belongs_fold_grows(g: GraphView, cands: Seq<(Seq<char>, Seq<char>)>)
    ensures
        grows(g, belongs_fold(g, cands).0),
    decreases cands.len(),
{
    if cands.len() > 0 {
        lemma_belongs_fold_grows(g, cands.drop_last());
        let g1 = belongs_fold(g, cands.drop_last()).0;
        if let Some(sp) = crate::backend::paths::containing_store_path_spec(cands.last().1) {
            lemma_belongs_grow(g1, cands.last().0, sp);
        }
    }
}

proof fn lemma_roots_fold_grows(
    g: GraphView,
    cands: Seq<(Seq<char>, Seq<char>)>,
    outs: Seq<Result<CommandOutputView, Seq<char>>>,
)
    ensures
        grows(g, roots_fold(g, cands, outs).0),
    decreases cands.len(),
{
    if cands.len() > 0 && outs.len() > 0 {
        lemma_roots_fold_grows(g, cands.drop_last(), outs.drop_last());
        let g1 = roots_fold(g, cands.drop_last(), outs.drop_last()).0;
        if let Ok(roots) = roots_outcome(cands.last().1, outs.last()) {
            lemma_roots_grow(g1, cands.last().0, roots);
        }
    }
}

proof fn lemma_nix_grows(g: GraphView, q: QueryView, outs: Seq<Result<CommandOutputView, Seq<char>>>)
    ensures
        grows(g, nix_investigation(g, q, outs).0),
        forall|i: int| 0 <= i < nix_investigation(g, q, outs).1.matches.len()
            ==> present(nix_investigation(g, q, outs).0, #[trigger] nix_investigation(g, q, outs).1.matches[i]),
{
    lemma_additions_grow();
    let step = nix_query_step(g, q);
    let g1 = step.0;
    assert(grows(g, g1) && forall|i: int| 0 <= i < step.1.len() ==> present(g1, #[trigger] step.1[i])) by {
        if let QueryView::StorePath(p) = q {
            if let Some(sp) = crate::backend::paths::containing_store_path_spec(p) {
                if crate::backend::paths::is_store_path_itself(p) {
                    let e = crate::domain::graph::plain_entity(crate::backend::nix::store_id(sp), EntityKind::StorePath, sp);
                    assert(grows(g, with_entity(g, e)) && present(with_entity(g, e), e.id));
                } else {
                    let e = crate::domain::graph::plain_entity(file_id(p), EntityKind::File, p);
                    assert(grows(g, with_entity(g, e)) && present(with_entity(g, e), e.id));
                    let ge = with_entity(g, e);
                    lemma_belongs_grow(ge, file_id(p), sp);
                }
            }
        }
    }
    lemma_belongs_fold_grows(g1, unresolved_paths(g1));
    let g2 = belongs_fold(g1, unresolved_paths(g1)).0;
    lemma_roots_fold_grows(g2, store_paths_of(g2), outs);
    let g3 = roots_fold(g2, store_paths_of(g2), outs).0;
    assert(nix_investigation(g, q, outs).1.matches == step.1);
    assert forall|i: int| 0 <= i < step.1.len() implies present(g3, #[trigger] step.1[i]) by {
        assert(present(g1, step.1[i]));
        assert(present(g2, step.1[i]));
    }
}

proof fn lemma_systemd_grows(g: GraphView, q: QueryView, o: Result<CommandOutputView, Seq<char>>)
    ensures
        grows(g, systemd_investigation(g, q, o).0),
        matches_present(systemd_investigation(g, q, o).0, systemd_investigation(g, q, o).1),
{
    lemma_additions_grow();
    if let QueryView::Service(service) = q {
        let unit = crate::backend::systemd::unit_name(service);
        if let Ok(props) = crate::backend::systemd::show_outcome(unit, o) {
            if props.len() > 0 {
                let e = crate::backend::systemd::service_entity(unit, props);
                let g1 = with_entity(g, e);
                assert(grows(g, g1) && present(g1, e.id));
                let g2 = add_fragment(g1, unit, props);
                assert(grows(g1, g2)) by {
                    if let Some(path) = crate::backend::systemd::present(props, "FragmentPath"@) {
                        let f = crate::domain::graph::plain_entity(file_id(path), EntityKind::File, path);
                        assert(grows(g1, with_entity(g1, f)));
                    }
                }
                let g3 = add_main_pid(g2, unit, props);
                assert(grows(g2, g3)) by {
                    if let Some(pid) = crate::backend::systemd::main_pid(props) {
                        let f = crate::domain::graph::plain_entity(
                            crate::backend::systemd::process_id(pid),
                            EntityKind::Process,
                            crate::backend::systemd::pid_name(pid),
                        );
                        assert(grows(g2, with_entity(g2, f)));
                    }
                }
                assert(present(g2, e.id));
                assert(present(g3, e.id));
            }
        }
    }
}

proof fn lemma_procfs_pid_grows(g: GraphView, pid: nat, include_match: bool, f: PidFacts)
    ensures
        grows(g, procfs_pid(g, pid, include_match, f).0),
        matches_present(procfs_pid(g, pid, include_match, f).0, procfs_pid(g, pid, include_match, f).1),
{
    lemma_additions_grow();
    if f.found {
        let e = crate::backend::procfs::process_entity(pid, f.own);
        let g1 = with_entity(g, e);
        assert(present(g1, e.id));
        assert(present(procfs_pid(g, pid, include_match, f).0, e.id));
    }
}

proof fn lemma_enrich_fold_grows(g: GraphView, pids: Seq<nat>, facts: Seq<PidFacts>)
    ensures
        grows(g, enrich_fold(g, pids, facts).0),
    decreases pids.len(),
{
    if pids.len() > 0 && facts.len() > 0 {
        lemma_enrich_fold_grows(g, pids.drop_last(), facts.drop_last());
        let g1 = enrich_fold(g, pids.drop_last(), facts.drop_last()).0;
        lemma_procfs_pid_grows(g1, pids.last(), false, facts.last());
    }
}

proof fn lemma_procfs_grows<F: FileSystem>(
    fs: F,
    root: Seq<char>,
    q: QueryView,
    before: GraphView,
    after: GraphView,
    r: Result<BackendOutputView, BackendErrorView>,
)
    requires
        procfs_investigated(fs, root, q, before, after, r),
    ensures
        grows(before, after),
        matches_present(after, r),
{
    let facts = choose|facts: Seq<PidFacts>| #[trigger] procfs_read(fs, root, before, q, facts)
        && procfs_outcome(before, after, r, q, facts);
    match q {
        QueryView::Process(pid) => {
            lemma_procfs_pid_grows(before, pid as nat, true, facts[0]);
        },
        _ => {
            let pids = pids_of(before);
            lemma_enrich_fold_grows(before, pids.take(facts.len() as int), facts);
        },
    }
}

proof fn lemma_canonical_grows(g: GraphView, from: Seq<char>, path: Seq<char>, canonical: Result<Seq<char>, Seq<char>>)
    ensures
        grows(g, canonical_step(g, from, path, canonical).0),
{
    lemma_additions_grow();
}

proof fn lemma_path_found_grows(g: GraphView, path: Seq<char>, kind: EntityKind, canonical: Result<Seq<char>, Seq<char>>)
    ensures
        grows(g, path_found(g, path, kind, canonical).0),
        matches_present(path_found(g, path, kind, canonical).0, path_found(g, path, kind, canonical).1),
{
    lemma_additions_grow();
    if path.len() > 0 {
        let e = path_entity(path, kind);
        let g1 = with_entity(g, e);
        assert(present(g1, file_id(path)));
        lemma_canonical_grows(g1, file_id(path), path, canonical);
        assert(present(path_found(g, path, kind, canonical).0, file_id(path)));
    }
}

proof fn lemma_enrich_paths_grows(
    g: GraphView,
    cands: Seq<(Seq<char>, Seq<char>)>,
    facts: Seq<(bool, Result<Seq<char>, Seq<char>>)>,
)
    ensures
        grows(g, enrich_paths_fold(g, cands, facts).0),
    decreases cands.len(),
{
    if cands.len() > 0 && facts.len() > 0 {
        lemma_enrich_paths_grows(g, cands.drop_last(), facts.drop_last());
        let g1 = enrich_paths_fold(g, cands.drop_last(), facts.drop_last()).0;
        lemma_canonical_grows(g1, cands.last().0, cands.last().1, facts.last().1);
    }
}

proof fn lemma_filesystem_grows<F: FileSystem>(
    fs: F,
    path_env: Option<Seq<char>>,
    q: QueryView,
    before: GraphView,
    after: GraphView,
    r: Result<BackendOutputView, BackendErrorView>,
)
    requires
        filesystem_investigated(fs, path_env, q, before, after, r),
    ensures
        grows(before, after),
        matches_present(after, r),
{
    let f = choose|f: FsFacts| #[trigger] filesystem_read(fs, path_env, before, q, f)
        && filesystem_outcome(path_env, q, before, after, r, f);
    match q {
        QueryView::Auto(name) => {
            if let Some(pe) = path_env {
                if let Some(p) = found_candidate(executable_candidates(name, pe), f.answers) {
                    lemma_path_found_grows(before, p, EntityKind::Executable, f.canonical);
                }
            }
        },
        QueryView::File(path) => {
            if f.exists {
                lemma_path_found_grows(
                    before,
                    path,
                    if f.executable {
                        EntityKind::Executable
                    } else {
                        EntityKind::File
                    },
                    f.canonical,
                );
            }
        },
        QueryView::Process(_) | QueryView::Service(_) => {
            lemma_enrich_paths_grows(before, unresolved_paths(before), f.enrich);
        },
        _ => {},
    }
}

proof fn lemma_backend_grows<R: CommandRunner, F: FileSystem>(
    runner: &R,
    fs: &F,
    i: int,
    ctx: SystemContextView,
    q: QueryView,
    before: GraphView,
    after: GraphView,
    r: Result<BackendOutputView, BackendErrorView>,
)
    requires
        0 <= i < 4,
        backend_investigated(runner, fs, i, ctx, q, before, after, r),
    ensures
        grows(before, after),
        matches_present(after, r),
{
    if i == 0 {
        let o = choose|o: Result<CommandOutputView, Seq<char>>| #[trigger] show_asked(runner, q, o)
            && (after, r) == systemd_investigation(before, q, o);
        lemma_systemd_grows(before, q, o);
    } else if i == 1 {
        lemma_procfs_grows(fs, "/proc"@, q, before, after, r);
    } else if i == 2 {
        lemma_filesystem_grows(fs, ctx.path_env, q, before, after, r);
    } else {
        let outs = choose|outs: Seq<Result<CommandOutputView, Seq<char>>>| #[trigger] roots_asked(runner, before, q, outs)
            && (after, r->Ok_0) == nix_investigation(before, q, outs);
        lemma_nix_grows(before, q, outs);
        let o = r->Ok_0;
        assert(o == nix_investigation(before, q, outs).1 && after == nix_investigation(before, q, outs).0);
        assert forall|k: int| 0 <= k < o.matches.len() implies present(after, #[trigger] o.matches[k]) by {
            assert(o.matches[k] == nix_investigation(before, q, outs).1.matches[k]);
        }
    }
}

proof fn lemma_run_steps_matches<R: CommandRunner, F: FileSystem>(
    runner: &R,
    fs: &F,
    q: QueryView,
    ctx: SystemContextView,
    steps: Seq<BackendStep>,
    inv: InvestigationView,
    n: nat,
)
    requires
        n <= 4,
        engine_outcome(runner, fs, q, ctx, steps, inv),
    ensures
        forall|i: int|
            0 <= i < run_steps(q, steps, n).matches.len() ==> present(
                run_steps(q, steps, n).graph,
                #[trigger] run_steps(q, steps, n).matches[i],
            ),
    decreases n,
{
    if n > 0 {
        let k = n - 1;
        lemma_run_steps_matches(runner, fs, q, ctx, steps, inv, (n - 1) as nat);
        let prev = run_steps(q, steps, (n - 1) as nat);
        let cur = run_steps(q, steps, n);
        if steps[k].detected && backend_supports(k, q) {
            lemma_backend_grows(runner, fs, k, ctx, q, prev.graph, steps[k].graph, steps[k].result);
            assert(cur.graph == steps[k].graph);
            assert forall|i: int| 0 <= i < cur.matches.len() implies present(cur.graph, #[trigger] cur.matches[i]) by {
                if i < prev.matches.len() {
                    assert(cur.matches[i] == prev.matches[i]);
                    assert(present(prev.graph, prev.matches[i]));
                } else {
                    let o = steps[k].result->Ok_0;
                    assert(cur.matches == prev.matches + o.matches);
                    assert(cur.matches[i] == o.matches[i - prev.matches.len()]);
                }
            }
        } else {
            assert(cur.graph == prev.graph && cur.matches == prev.matches);
        }
    }
}

/// Every match of an investigation is an entity of its graph: each backend
/// reports as matches only entities it has added, and no backend takes an
/// entity out of the graph.
pub proof fn law_every_match_is_an_entity<R: CommandRunner, F: FileSystem>(
    runner: &R,
    fs: &F,
    q: QueryView,
    ctx: SystemContextView,
    steps: Seq<BackendStep>,
    inv: InvestigationView,
)
    requires
        engine_outcome(runner, fs, q, ctx, steps, inv),
    ensures
        forall|i: int| 0 <= i < inv.matches.len() ==> find_entity(inv.graph.entities, #[trigger] inv.matches[i]) is Some,
{
    lemma_run_steps_matches(runner, fs, q, ctx, steps, inv, 4);
    let last = run_steps(q, steps, 4);
    assert(inv.graph == last.graph && inv.matches == last.matches);
    assert forall|i: int| 0 <= i < inv.matches.len() implies find_entity(inv.graph.entities, #[trigger] inv.matches[i]) is Some by {
        assert(present(last.graph, last.matches[i]));
        lemma_find_entity_found(inv.graph.entities, inv.matches[i]);
    }
}

} // verus!
