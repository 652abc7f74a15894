use vstd::prelude::*;
use crate::backend::command::{CommandOutputView, CommandRunner};
use crate::backend::host::FileSystem;
use crate::backend::filesystem::{
    canonical_step, enrich_paths_fold, executable_candidates, filesystem_investigated, filesystem_outcome, filesystem_read,
    found_candidate, path_entity, path_found, FsFacts,
};
use crate::backend::nix::{
    roots_asked, add_roots, belongs_fold, file_id, nix_investigation, nix_query_step, roots_fold, roots_outcome, store_paths_of,
    unresolved_paths,
};
use crate::backend::procfs::{enrich_fold, pids_of, procfs_investigated, procfs_outcome, procfs_pid, procfs_read, PidFacts};
use crate::backend::systemd::{show_asked, systemd_investigation};
use crate::backend::{BackendErrorView, BackendOutputView, SystemContextView};
use crate::domain::entity::{EntityKind, EntityView};
use crate::domain::graph_laws::{edges_unique, law_add_relation_keeps_edges_unique, law_evidence_union_contents};
use crate::domain::graph::{find_edge_from, merge_relation, relations_add, with_entity, with_relation, GraphView};
use crate::domain::query::QueryView;
use crate::domain::relation::RelationView;
use crate::engine::{backend_investigated, backend_supports, engine_outcome, run_steps, BackendStep, InvestigationView};

verus! {

/// Whether every relation of the graph is backed by some evidence, and no
/// two relations share an edge.
pub open spec fn all_evidenced(g: GraphView) -> bool {
    &&& forall|j: int| 0 <= j < g.relations.len() ==> #[trigger] g.relations[j].evidence.len() > 0
    &&& edges_unique(g.relations)
}

proof fn lemma_find_edge_in_range(s: Seq<RelationView>, r: RelationView, i: int)
    ensures
        find_edge_from(s, r, i) matches Some(k) ==> 0 <= k < s.len(),
    decreases s.len() - i,
{
    if 0 <= i < s.len() {
        lemma_find_edge_in_range(s, r, i + 1);
    }
}

/// Adding a relation backed by evidence keeps every relation backed: a new
/// one is appended, and a merged one keeps the evidence it had.
proof fn lemma_relation_keeps(g: GraphView, r: RelationView)
    requires
        all_evidenced(g),
        r.evidence.len() > 0,
    ensures
        all_evidenced(with_relation(g, r)),
{
    let s = g.relations;
    law_add_relation_keeps_edges_unique(s, r);
    lemma_find_edge_in_range(s, r, 0);
    match find_edge_from(s, r, 0) {
        Some(i) => {
            law_evidence_union_contents(s[i].evidence, r.evidence);
            let t = relations_add(s, r);
            assert(t == s.update(i, merge_relation(s[i], r)));
            assert forall|j: int| 0 <= j < t.len() implies #[trigger] t[j].evidence.len() > 0 by {
                if j != i {
                    assert(t[j] == s[j]);
                }
            }
        },
        None => {
            let t = relations_add(s, r);
            assert(t == s.push(r));
            assert forall|j: int| 0 <= j < t.len() implies #[trigger] t[j].evidence.len() > 0 by {
                if j < s.len() {
                    assert(t[j] == s[j]);
                }
            }
        },
    }
}

// ---------------------------------------------------------------------------
// Each backend
// ---------------------------------------------------------------------------

/// Adding entities, and relations backed by evidence, keeps every relation
/// backed.
proof fn lemma_additions_keep()
    ensures
        forall|g: GraphView, e: EntityView| all_evidenced(g) ==> #[trigger] all_evidenced(with_entity(g, e)),
        forall|g: GraphView, r: RelationView|
            all_evidenced(g) && r.evidence.len() > 0 ==> #[trigger] all_evidenced(with_relation(g, r)),
{
    assert forall|g: GraphView, r: RelationView| all_evidenced(g) && r.evidence.len() > 0 implies #[trigger] all_evidenced(
        with_relation(g, r),
    ) by {
        lemma_relation_keeps(g, r);
    }
}

proof fn lemma_systemd_keeps(g: GraphView, q: QueryView, o: Result<CommandOutputView, Seq<char>>)
    requires
        all_evidenced(g),
    ensures
        all_evidenced(systemd_investigation(g, q, o).0),
{
    lemma_additions_keep();
}

proof fn lemma_roots_keep(g: GraphView, from: Seq<char>, roots: Seq<Seq<char>>)
    requires
        all_evidenced(g),
    ensures
        all_evidenced(add_roots(g, from, roots)),
    decreases roots.len(),
{
    lemma_additions_keep();
    if roots.len() > 0 {
        lemma_roots_keep(g, from, roots.drop_last());
    }
}

proof fn lemma_belongs_fold_keeps(g: GraphView, cands: Seq<(Seq<char>, Seq<char>)>)
    requires
        all_evidenced(g),
    ensures
        all_evidenced(belongs_fold(g, cands).0),
    decreases cands.len(),
{
    lemma_additions_keep();
    if cands.len() > 0 {
        lemma_belongs_fold_keeps(g, cands.drop_last());
    }
}

proof fn lemma_roots_fold_keeps(
    g: GraphView,
    cands: Seq<(Seq<char>, Seq<char>)>,
    outs: Seq<Result<CommandOutputView, Seq<char>>>,
)
    requires
        all_evidenced(g),
    ensures
        all_evidenced(roots_fold(g, cands, outs).0),
    decreases cands.len(),
{
    if cands.len() > 0 && outs.len() > 0 {
        lemma_roots_fold_keeps(g, cands.drop_last(), outs.drop_last());
        let g1 = roots_fold(g, cands.drop_last(), outs.drop_last()).0;
        if let Ok(roots) = roots_outcome(cands.last().1, outs.last()) {
            lemma_roots_keep(g1, cands.last().0, roots);
        }
    }
}

proof fn lemma_nix_keeps(g: GraphView, q: QueryView, outs: Seq<Result<CommandOutputView, Seq<char>>>)
    requires
        all_evidenced(g),
    ensures
        all_evidenced(nix_investigation(g, q, outs).0),
{
    lemma_additions_keep();
    let g1 = nix_query_step(g, q).0;
    assert(all_evidenced(g1));
    lemma_belongs_fold_keeps(g1, unresolved_paths(g1));
    let g2 = belongs_fold(g1, unresolved_paths(g1)).0;
    lemma_roots_fold_keeps(g2, store_paths_of(g2), outs);
}

proof fn lemma_procfs_pid_keeps(g: GraphView, pid: nat, include_match: bool, f: PidFacts)
    requires
        all_evidenced(g),
    ensures
        all_evidenced(procfs_pid(g, pid, include_match, f).0),
{
    lemma_additions_keep();
}

proof fn lemma_enrich_fold_keeps(g: GraphView, pids: Seq<nat>, facts: Seq<PidFacts>)
    requires
        all_evidenced(g),
    ensures
        all_evidenced(enrich_fold(g, pids, facts).0),
    decreases pids.len(),
{
    if pids.len() > 0 && facts.len() > 0 {
        lemma_enrich_fold_keeps(g, pids.drop_last(), facts.drop_last());
        let g1 = enrich_fold(g, pids.drop_last(), facts.drop_last()).0;
        lemma_procfs_pid_keeps(g1, pids.last(), false, facts.last());
    }
}

proof fn lemma_procfs_keeps<F: FileSystem>(
    fs: F,
    root: Seq<char>,
    q: QueryView,
    before: GraphView,
    after: GraphView,
    r: Result<BackendOutputView, BackendErrorView>,
)
    requires
        all_evidenced(before),
        procfs_investigated(fs, root, q, before, after, r),
    ensures
        all_evidenced(after),
{
    let facts = choose|facts: Seq<PidFacts>| #[trigger] procfs_read(fs, root, before, q, facts)
        && procfs_outcome(before, after, r, q, facts);
    match q {
        QueryView::Process(pid) => {
            lemma_procfs_pid_keeps(before, pid as nat, true, facts[0]);
        },
        _ => {
            let pids = pids_of(before);
            lemma_enrich_fold_keeps(before, pids.take(facts.len() as int), facts);
        },
    }
}

proof fn lemma_canonical_keeps(g: GraphView, from: Seq<char>, path: Seq<char>, canonical: Result<Seq<char>, Seq<char>>)
    requires
        all_evidenced(g),
    ensures
        all_evidenced(canonical_step(g, from, path, canonical).0),
{
    lemma_additions_keep();
}

proof fn lemma_path_found_keeps(
    g: GraphView,
    path: Seq<char>,
    kind: EntityKind,
    canonical: Result<Seq<char>, Seq<char>>,
)
    requires
        all_evidenced(g),
    ensures
        all_evidenced(path_found(g, path, kind, canonical).0),
{
    lemma_additions_keep();
    if path.len() > 0 {
        let g1 = with_entity(g, path_entity(path, kind));
        lemma_canonical_keeps(g1, file_id(path), path, canonical);
    }
}

proof fn lemma_enrich_paths_keeps(
    g: GraphView,
    cands: Seq<(Seq<char>, Seq<char>)>,
    facts: Seq<(bool, Result<Seq<char>, Seq<char>>)>,
)
    requires
        all_evidenced(g),
    ensures
        all_evidenced(enrich_paths_fold(g, cands, facts).0),
    decreases cands.len(),
{
    if cands.len() > 0 && facts.len() > 0 {
        lemma_enrich_paths_keeps(g, cands.drop_last(), facts.drop_last());
        let g1 = enrich_paths_fold(g, cands.drop_last(), facts.drop_last()).0;
        lemma_canonical_keeps(g1, cands.last().0, cands.last().1, facts.last().1);
    }
}

proof fn lemma_filesystem_keeps<F: FileSystem>(
    fs: F,
    path_env: Option<Seq<char>>,
    q: QueryView,
    before: GraphView,
    after: GraphView,
    r: Result<BackendOutputView, BackendErrorView>,
)
    requires
        all_evidenced(before),
        filesystem_investigated(fs, path_env, q, before, after, r),
    ensures
        all_evidenced(after),
{
    let f = choose|f: FsFacts| #[trigger] filesystem_read(fs, path_env, before, q, f)
        && filesystem_outcome(path_env, q, before, after, r, f);
    match q {
        QueryView::Auto(name) => {
            if let Some(pe) = path_env {
                if let Some(p) = found_candidate(
                    executable_candidates(name, pe),
                    f.answers,
                ) {
                    lemma_path_found_keeps(before, p, EntityKind::Executable, f.canonical);
                }
            }
        },
        QueryView::File(path) => {
            if f.exists {
                lemma_path_found_keeps(
                    before,
                    path,
                    if f.executable {
                        EntityKind::Executable
                    } else {
                        EntityKind::File
                    },
                    f.canonical,
                );
            }
        },
        QueryView::Process(_) | QueryView::Service(_) => {
            lemma_enrich_paths_keeps(before, unresolved_paths(before), f.enrich);
        },
        _ => {},
    }
}

// ---------------------------------------------------------------------------
// The engine
// ---------------------------------------------------------------------------

proof fn lemma_backend_keeps<R: CommandRunner, F: FileSystem>(
    runner: &R,
    fs: &F,
    i: int,
    ctx: SystemContextView,
    q: QueryView,
    before: GraphView,
    after: GraphView,
    r: Result<BackendOutputView, BackendErrorView>,
)
    requires
        0 <= i < 4,
        all_evidenced(before),
        backend_investigated(runner, fs, i, ctx, q, before, after, r),
    ensures
        all_evidenced(after),
{
    if i == 0 {
        let o = choose|o: Result<CommandOutputView, Seq<char>>| #[trigger] show_asked(runner, q, o)
            && (after, r) == systemd_investigation(before, q, o);
        lemma_systemd_keeps(before, q, o);
    } else if i == 1 {
        lemma_procfs_keeps(fs, "/proc"@, q, before, after, r);
    } else if i == 2 {
        lemma_filesystem_keeps(fs, ctx.path_env, q, before, after, r);
    } else {
        let outs = choose|outs: Seq<Result<CommandOutputView, Seq<char>>>| #[trigger] roots_asked(runner, before, q, outs)
            && (after, r->Ok_0) == nix_investigation(before, q, outs);
        lemma_nix_keeps(before, q, outs);
    }
}

proof fn lemma_run_steps_keeps<R: CommandRunner, F: FileSystem>(
    runner: &R,
    fs: &F,
    q: QueryView,
    ctx: SystemContextView,
    steps: Seq<BackendStep>,
    inv: InvestigationView,
    n: nat,
)
    requires
        n <= 4,
        engine_outcome(runner, fs, q, ctx, steps, inv),
    ensures
        all_evidenced(run_steps(q, steps, n).graph),
    decreases n,
{
    if n > 0 {
        let i = n - 1;
        lemma_run_steps_keeps(runner, fs, q, ctx, steps, inv, (n - 1) as nat);
        let before = run_steps(q, steps, (n - 1) as nat).graph;
        if steps[i].detected && backend_supports(i, q) {
            lemma_backend_keeps(runner, fs, i, ctx, q, before, steps[i].graph, steps[i].result);
        }
    }
}

/// Every relation in the graph of an investigation is backed by evidence,
/// and no two relations share an edge: each backend adds relations only
/// together with the evidence for them, and through the graph, which merges
/// a relation into the one with its edge.
pub proof fn law_every_relation_has_evidence<R: CommandRunner, F: FileSystem>(
    runner: &R,
    fs: &F,
    q: QueryView,
    ctx: SystemContextView,
    steps: Seq<BackendStep>,
    inv: InvestigationView,
)
    requires
        engine_outcome(runner, fs, q, ctx, steps, inv),
    ensures
        forall|j: int| 0 <= j < inv.graph.relations.len() ==> #[trigger] inv.graph.relations[j].evidence.len() > 0,
        edges_unique(inv.graph.relations),
{
    lemma_run_steps_keeps(runner, fs, q, ctx, steps, inv, 4);
}

} // verus!
