use vstd::prelude::*;
use crate::backend::command::CommandRunner;
use crate::backend::filesystem::{filesystem_investigated, FileSystemBackend};
use crate::backend::host::{FileSystem, FsAnswer, FsQuestion};
use crate::backend::nix::{nix_outcome, NixBackend};
use crate::backend::procfs::{procfs_investigated, ProcfsBackend};
use crate::backend::systemd::{systemd_outcome, SystemdBackend};
use crate::backend::{
    backend_result_view, Backend, BackendError, BackendErrorView, BackendOutputView, BackendState, BackendStateView,
    BackendStatus, BackendStatusView, SystemContext, SystemContextView, BackendOutput,
};
use crate::backend::id_views;
use crate::domain::entity::EntityId;
use crate::domain::graph::{EvidenceGraph, GraphView};
use crate::domain::query::{Query, QueryView};
use crate::domain::scan::views;
use crate::domain::text::owned;

verus! {

// ---------------------------------------------------------------------------
// The result of an investigation
// ---------------------------------------------------------------------------

/// The views of a list of backend statuses.
pub open spec fn status_views(v: Seq<BackendStatus>) -> Seq<BackendStatusView> {
    v.map_values(|s: BackendStatus| s@)
}

/// The mathematical value of an investigation.
pub struct InvestigationView {
    pub query: QueryView,
    pub answer: Seq<char>,
    pub graph: GraphView,
    pub matches: Seq<Seq<char>>,
    pub incomplete: Seq<Seq<char>>,
    pub backend_status: Seq<BackendStatusView>,
}

/// What the backends found for a query: the answer, the evidence graph,
/// the entities that answer it, the gaps and how each backend fared.
#[derive(Debug, Clone)]
pub struct Investigation {
    pub query: Query,
    pub answer: String,
    pub graph: EvidenceGraph,
    pub matches: Vec<EntityId>,
    pub incomplete: Vec<String>,
    pub backend_status: Vec<BackendStatus>,
}

impl View for Investigation {
    type V = InvestigationView;

    open spec fn view(&self) -> InvestigationView {
        InvestigationView {
            query: self.query@,
            answer: self.answer@,
            graph: self.graph@,
            matches: id_views(self.matches@),
            incomplete: views(self.incomplete@),
            backend_status: status_views(self.backend_status@),
        }
    }
}

/// The answer given before any backend has explained the query.
pub open spec fn no_answer() -> Seq<char> {
    "No explanation available yet."@
}

/// The gap reported when no backend explained the query.
pub open spec fn no_explanation() -> Seq<char> {
    "No backend has produced an explanation for this query."@
}

/// A status of a backend.
pub open spec fn status(backend: Seq<char>, state: BackendStateView) -> BackendStatusView {
    BackendStatusView { backend, state }
}

/// An investigation of `q` that no backend has taken part in.
pub open spec fn empty_investigation(q: QueryView) -> InvestigationView {
    InvestigationView {
        query: q,
        answer: no_answer(),
        graph: GraphView { entities: Seq::empty(), relations: Seq::empty() },
        matches: Seq::empty(),
        incomplete: seq![no_explanation()],
        backend_status: seq![
            status("filesystem"@, BackendStateView::NotImplemented),
            status("nix"@, BackendStateView::NotImplemented),
            status("procfs"@, BackendStateView::NotImplemented),
            status("systemd"@, BackendStateView::NotImplemented),
        ],
    }
}

/// An investigation of `q` before the backends run.
pub open spec fn started_investigation(q: QueryView) -> InvestigationView {
    InvestigationView {
        query: q,
        answer: no_answer(),
        graph: GraphView { entities: Seq::empty(), relations: Seq::empty() },
        matches: Seq::empty(),
        incomplete: Seq::empty(),
        backend_status: Seq::empty(),
    }
}

/// The state a backend is left in by the result of its investigation.
pub open spec fn state_after(r: Result<BackendOutputView, BackendErrorView>) -> BackendStateView {
    match r {
        Ok(_) => BackendStateView::Succeeded,
        Err(BackendErrorView::UnsupportedQuery) => BackendStateView::NotUsed,
        Err(BackendErrorView::NotImplemented) => BackendStateView::NotImplemented,
        Err(BackendErrorView::Failed(m)) => BackendStateView::Error(m),
    }
}

/// The investigation after recording backend `name`: unavailable where it
/// was not detected, not used where it does not support the query, else
/// the matches and gaps of its output and the state its result leaves.
pub open spec fn recorded(
    inv: InvestigationView,
    name: Seq<char>,
    detected: bool,
    supported: bool,
    r: Result<BackendOutputView, BackendErrorView>,
) -> InvestigationView {
    if !detected {
        InvestigationView { backend_status: inv.backend_status.push(status(name, BackendStateView::Unavailable)), ..inv }
    } else if !supported {
        InvestigationView { backend_status: inv.backend_status.push(status(name, BackendStateView::NotUsed)), ..inv }
    } else {
        match r {
            Ok(o) => InvestigationView {
                matches: inv.matches + o.matches,
                incomplete: inv.incomplete + o.incomplete,
                backend_status: inv.backend_status.push(status(name, BackendStateView::Succeeded)),
                ..inv
            },
            Err(e) => InvestigationView {
                backend_status: inv.backend_status.push(status(name, state_after(Err(e)))),
                ..inv
            },
        }
    }
}

/// The answer for a query that some entity answers.
pub open spec fn answer_for(q: QueryView) -> Seq<char> {
    match q {
        QueryView::Auto(_) => "Executable found in PATH."@,
        QueryView::File(_) => "Path found."@,
        QueryView::Process(_) => "Process found."@,
        QueryView::Service(_) => "Service found."@,
        QueryView::StorePath(_) => "Nix store path found."@,
        _ => "Explanation available."@,
    }
}

/// The investigation once all backends have run: a gap is reported where
/// nothing was found or missed, and the answer names what was found.
pub open spec fn concluded(inv: InvestigationView) -> InvestigationView {
    let inv1 = if inv.matches.len() == 0 && inv.incomplete.len() == 0 {
        InvestigationView { incomplete: seq![no_explanation()], ..inv }
    } else {
        inv
    };
    if inv1.matches.len() > 0 {
        InvestigationView { answer: answer_for(inv1.query), ..inv1 }
    } else {
        inv1
    }
}

fn status_new(backend: &str, state: BackendState) -> (r: BackendStatus)
    ensures
        r@ == status(backend@, state@),
{
    BackendStatus::new(backend, state)
}

impl Investigation {
    /// An investigation of `query` that no backend has taken part in.
    pub fn empty(query: Query) -> (r: Self)
        ensures
            r@ == empty_investigation(query@),
    {
        let r = Investigation {
            query,
            answer: owned("No explanation available yet."),
            graph: EvidenceGraph::new(),
            matches: Vec::new(),
            incomplete: vec![owned("No backend has produced an explanation for this query.")],
            backend_status: vec![
                status_new("filesystem", BackendState::NotImplemented),
                status_new("nix", BackendState::NotImplemented),
                status_new("procfs", BackendState::NotImplemented),
                status_new("systemd", BackendState::NotImplemented),
            ],
        };
        assert(r@.matches =~= Seq::<Seq<char>>::empty());
        assert(r@.incomplete =~= seq![no_explanation()]);
        assert(r@.backend_status =~= empty_investigation(r@.query).backend_status);
        assert(r@.graph =~= empty_investigation(r@.query).graph);
        r
    }

    /// An investigation of `query` before the backends run.
    fn started(query: Query) -> (r: Self)
        ensures
            r@ == started_investigation(query@),
    {
        let r = Investigation {
            query,
            answer: owned("No explanation available yet."),
            graph: EvidenceGraph::new(),
            matches: Vec::new(),
            incomplete: Vec::new(),
            backend_status: Vec::new(),
        };
        assert(r@.matches =~= Seq::<Seq<char>>::empty());
        assert(r@.incomplete =~= Seq::<Seq<char>>::empty());
        assert(r@.backend_status =~= Seq::<BackendStatusView>::empty());
        assert(r@.graph =~= started_investigation(r@.query).graph);
        r
    }

    /// Records how backend `backend` fared: whether it was detected,
    /// whether it supports the query, and, where both hold, the result of
    /// its investigation. The graph is left as it is.
    pub fn record_backend(
        &mut self,
        backend: &str,
        detected: bool,
        supported: bool,
        result: Result<BackendOutput, BackendError>,
    )
        ensures
            final(self)@ == recorded(old(self)@, backend@, detected, supported, backend_result_view(result)),
    {
        let ghost before = self@;
        if !detected {
            self.backend_status.push(status_new(backend, BackendState::Unavailable));
            assert(self@.backend_status =~= before.backend_status.push(status(backend@, BackendStateView::Unavailable)));
            return;
        }
        if !supported {
            self.backend_status.push(status_new(backend, BackendState::NotUsed));
            assert(self@.backend_status =~= before.backend_status.push(status(backend@, BackendStateView::NotUsed)));
            return;
        }
        match result {
            Ok(output) => {
                let mut matches = output.matches;
                let mut incomplete = output.incomplete;
                let ghost mv = id_views(matches@);
                let ghost iv = views(incomplete@);
                self.matches.append(&mut matches);
                self.incomplete.append(&mut incomplete);
                self.backend_status.push(status_new(backend, BackendState::Succeeded));
                assert(self@.matches =~= before.matches + mv);
                assert(self@.incomplete =~= before.incomplete + iv);
                assert(self@.backend_status =~= before.backend_status.push(status(backend@, BackendStateView::Succeeded)));
            },
            Err(error) => {
                let ghost ev = error@;
                let state = match error {
                    BackendError::UnsupportedQuery => BackendState::NotUsed,
                    BackendError::NotImplemented => BackendState::NotImplemented,
                    BackendError::Failed(message) => BackendState::Error(message),
                };
                assert(state@ == state_after(Err(ev)));
                self.backend_status.push(status_new(backend, state));
                assert(self@.backend_status =~= before.backend_status.push(status(backend@, state_after(Err(ev)))));
            },
        }
    }

    /// Concludes the investigation once all backends have run.
    pub fn conclude(&mut self)
        ensures
            final(self)@ == concluded(old(self)@),
    {
        let ghost before = self@;
        if self.matches.len() == 0 && self.incomplete.len() == 0 {
            self.incomplete.push(owned("No backend has produced an explanation for this query."));
            assert(self@.incomplete =~= seq![no_explanation()]);
        }
        if self.matches.len() > 0 {
            self.answer = owned(
                match &self.query {
                    Query::Auto(_) => "Executable found in PATH.",
                    Query::File(_) => "Path found.",
                    Query::Process(_) => "Process found.",
                    Query::Service(_) => "Service found.",
                    Query::StorePath(_) => "Nix store path found.",
                    _ => "Explanation available.",
                },
            );
        }
    }
}

// ---------------------------------------------------------------------------
// Running the backends
// ---------------------------------------------------------------------------

/// What one backend did: whether it was detected, the graph it left and
/// its result, where it investigated.
pub struct BackendStep {
    pub detected: bool,
    pub graph: GraphView,
    pub result: Result<BackendOutputView, BackendErrorView>,
}

/// The investigation after running a backend named `name`, given what it
/// did: its graph counts only where it investigated.
pub open spec fn backend_step(inv: InvestigationView, name: Seq<char>, supported: bool, s: BackendStep) -> InvestigationView {
    let inv1 = if s.detected && supported {
        InvestigationView { graph: s.graph, ..inv }
    } else {
        inv
    };
    recorded(inv1, name, s.detected, supported, s.result)
}

/// Runs one backend on the investigation.
fn run_backend<B: Backend>(
    backend: &B,
    context: &SystemContext,
    query: &Query,
    investigation: &mut Investigation,
) -> (r: Ghost<BackendStep>)
    ensures
        backend.spec_detected(context@, r@.detected),
        r@.detected && backend.spec_supports(query@) ==> backend.spec_investigated(
            query@,
            old(investigation)@.graph,
            r@.graph,
            r@.result,
        ),
        final(investigation)@ == backend_step(old(investigation)@, backend.spec_name(), backend.spec_supports(query@), r@),
{
    let ghost g0 = investigation@.graph;
    let detected = backend.detect(context);
    if !detected {
        investigation.record_backend(backend.name(), false, false, Err(BackendError::NotImplemented));
        return Ghost(BackendStep { detected, graph: g0, result: Err(BackendErrorView::NotImplemented) });
    }
    let supported = backend.supports(query);
    if !supported {
        investigation.record_backend(backend.name(), true, false, Err(BackendError::NotImplemented));
        return Ghost(BackendStep { detected, graph: g0, result: Err(BackendErrorView::NotImplemented) });
    }
    let result = backend.investigate(query, &mut investigation.graph);
    let ghost step = BackendStep { detected, graph: investigation@.graph, result: backend_result_view(result) };
    investigation.record_backend(backend.name(), true, true, result);
    Ghost(step)
}

/// The names of the backends, in the order they run.
pub open spec fn backend_name(i: int) -> Seq<char> {
    if i == 0 {
        "systemd"@
    } else if i == 1 {
        "procfs"@
    } else if i == 2 {
        "filesystem"@
    } else {
        "nix"@
    }
}

/// Whether the `i`-th backend takes part in answering `q`.
pub open spec fn backend_supports(i: int, q: QueryView) -> bool {
    if i == 0 {
        q is Service
    } else if i == 2 {
        q is Auto || q is File || q is Process || q is Service
    } else {
        true
    }
}

/// Whether the `i`-th backend may give `d` when asked whether it runs on a
/// system described by `ctx`.
pub open spec fn backend_detected<F: FileSystem>(fs: &F, i: int, ctx: SystemContextView, d: bool) -> bool {
    if i == 0 {
        d == ctx.has_systemd
    } else if i == 1 {
        fs.may_answer(FsQuestion::Exists("/proc"@), FsAnswer::Flag(d))
    } else if i == 2 {
        d
    } else {
        d == ctx.has_nix_store
    }
}

/// Whether the `i`-th backend may turn `before` into `after` with result
/// `r` for `q`.
pub open spec fn backend_investigated<R: CommandRunner, F: FileSystem>(
    runner: &R,
    fs: &F,
    i: int,
    ctx: SystemContextView,
    q: QueryView,
    before: GraphView,
    after: GraphView,
    r: Result<BackendOutputView, BackendErrorView>,
) -> bool {
    if i == 0 {
        systemd_outcome(runner, q, before, after, r)
    } else if i == 1 {
        procfs_investigated(fs, "/proc"@, q, before, after, r)
    } else if i == 2 {
        filesystem_investigated(fs, ctx.path_env, q, before, after, r)
    } else {
        nix_outcome(runner, q, before, after, r)
    }
}

/// The investigation of `q` after the first `n` backends did what `steps`
/// says.
pub open spec fn run_steps(q: QueryView, steps: Seq<BackendStep>, n: nat) -> InvestigationView
    decreases n,
{
    if n == 0 {
        started_investigation(q)
    } else {
        let i = n - 1;
        backend_step(run_steps(q, steps, (n - 1) as nat), backend_name(i), backend_supports(i, q), steps[i])
    }
}

/// Whether `inv` is what investigating `q` on a system described by `ctx`
/// gives, running commands through `runner` and reading files through `fs`,
/// when the backends did what `steps` says: systemd, procfs, filesystem and
/// nix run in that order, each on the graph the one before left, and the
/// investigation is then concluded.
pub open spec fn engine_outcome<R: CommandRunner, F: FileSystem>(
    runner: &R,
    fs: &F,
    q: QueryView,
    ctx: SystemContextView,
    steps: Seq<BackendStep>,
    inv: InvestigationView,
) -> bool {
    &&& steps.len() == 4
    &&& forall|i: int| 0 <= i < 4 ==> backend_detected(fs, i, ctx, #[trigger] steps[i].detected)
    &&& forall|i: int|
        0 <= i < 4 && #[trigger] steps[i].detected && backend_supports(i, q) ==> backend_investigated(
            runner,
            fs,
            i,
            ctx,
            q,
            run_steps(q, steps, i as nat).graph,
            steps[i].graph,
            steps[i].result,
        )
    &&& inv == concluded(run_steps(q, steps, 4))
}

/// Runs the backends on queries.
#[derive(Debug, Default)]
pub struct Engine;

impl Engine {
    pub fn new() -> (r: Self)
        ensures
            r == Engine,
    {
        Engine
    }

    /// Investigates `query` on a system described by `context`, running
    /// commands through `runner` and reading files through `fs`.
    pub fn investigate<R: CommandRunner, F: FileSystem>(
        &self,
        query: Query,
        context: &SystemContext,
        runner: &R,
        fs: &F,
    ) -> (r: Investigation)
        ensures
            exists|steps: Seq<BackendStep>| #[trigger] engine_outcome(runner, fs, query@, context@, steps, r@),
    {
        let mut investigation = Investigation::started(query.duplicate());
        let ghost q = query@;
        let ghost inv0 = investigation@;

        let systemd = SystemdBackend::with_runner(runner);
        let Ghost(s0) = run_backend(&systemd, context, &query, &mut investigation);
        let ghost inv1 = investigation@;

        let procfs = ProcfsBackend::new(fs);
        let Ghost(s1) = run_backend(&procfs, context, &query, &mut investigation);
        let ghost inv2 = investigation@;

        let filesystem = FileSystemBackend::from_context(context, fs);
        let Ghost(s2) = run_backend(&filesystem, context, &query, &mut investigation);
        let ghost inv3 = investigation@;

        let nix = NixBackend::with_runner(runner);
        let Ghost(s3) = run_backend(&nix, context, &query, &mut investigation);
        let ghost inv4 = investigation@;

        let ghost steps = seq![s0, s1, s2, s3];
        investigation.conclude();
        proof {
            assert(steps[0] == s0 && steps[1] == s1 && steps[2] == s2 && steps[3] == s3);
            assert(run_steps(q, steps, 0) == inv0);
            assert(run_steps(q, steps, 1) == inv1);
            assert(run_steps(q, steps, 2) == inv2);
            assert(run_steps(q, steps, 3) == inv3);
            assert(run_steps(q, steps, 4) == inv4);
            assert(forall|i: int| 0 <= i < 4 ==> backend_detected(fs, i, context@, #[trigger] steps[i].detected));
            assert forall|i: int|
                0 <= i < 4 && #[trigger] steps[i].detected && backend_supports(i, q) implies backend_investigated(
                runner,
                fs,
                i,
                context@,
                q,
                run_steps(q, steps, i as nat).graph,
                steps[i].graph,
                steps[i].result,
            ) by {
                if i == 0 {
                } else if i == 1 {
                } else if i == 2 {
                } else {
                }
            }
            assert(engine_outcome(runner, fs, q, context@, steps, investigation@));
        }
        investigation
    }
}

// ---------------------------------------------------------------------------
// What every investigation keeps
// ---------------------------------------------------------------------------

proof fn lemma_run_steps_shape(q: QueryView, steps: Seq<BackendStep>, n: nat)
    requires
        n <= steps.len(),
    ensures
        run_steps(q, steps, n).query == q,
        run_steps(q, steps, n).answer == no_answer(),
        run_steps(q, steps, n).backend_status.len() == n,
        forall|i: int| 0 <= i < n ==> #[trigger] run_steps(q, steps, n).backend_status[i].backend == backend_name(i),
    decreases n,
{
    if n > 0 {
        lemma_run_steps_shape(q, steps, (n - 1) as nat);
        let before = run_steps(q, steps, (n - 1) as nat);
        let after = run_steps(q, steps, n);
        assert forall|i: int| 0 <= i < n implies #[trigger] after.backend_status[i].backend == backend_name(i) by {
            if i < n - 1 {
                assert(after.backend_status[i] == before.backend_status[i]);
            }
        }
    }
}

/// Each backend leaves exactly one status in every investigation, however
/// it fared, in the order the backends run: systemd, procfs, filesystem,
/// nix.
pub proof fn law_one_status_per_backend<R: CommandRunner, F: FileSystem>(
    runner: &R,
    fs: &F,
    q: QueryView,
    ctx: SystemContextView,
    steps: Seq<BackendStep>,
    inv: InvestigationView,
)
    requires
        engine_outcome(runner, fs, q, ctx, steps, inv),
    ensures
        inv.backend_status.len() == 4,
        inv.backend_status[0].backend == "systemd"@,
        inv.backend_status[1].backend == "procfs"@,
        inv.backend_status[2].backend == "filesystem"@,
        inv.backend_status[3].backend == "nix"@,
{
    lemma_run_steps_shape(q, steps, 4);
    let before = run_steps(q, steps, 4);
    assert(before.backend_status[0].backend == backend_name(0));
    assert(before.backend_status[1].backend == backend_name(1));
    assert(before.backend_status[2].backend == backend_name(2));
    assert(before.backend_status[3].backend == backend_name(3));
}

/// Every investigation says something: it names a match or reports a gap,
/// and its answer names what was found exactly when something was found;
/// it is about the query it was asked.
pub proof fn law_investigation_says_something<R: CommandRunner, F: FileSystem>(
    runner: &R,
    fs: &F,
    q: QueryView,
    ctx: SystemContextView,
    steps: Seq<BackendStep>,
    inv: InvestigationView,
)
    requires
        engine_outcome(runner, fs, q, ctx, steps, inv),
    ensures
        inv.query == q,
        inv.matches.len() > 0 || inv.incomplete.len() > 0,
        inv.answer == if inv.matches.len() > 0 { answer_for(q) } else { no_answer() },
{
    lemma_run_steps_shape(q, steps, 4);
}

/// The filesystem backend takes part in every service query: it resolves
/// the files that systemd names, such as a unit's fragment file. On a
/// service query the investigation records the filesystem backend as
/// having run and succeeded, never as not used or unavailable.
pub proof fn law_filesystem_runs_for_service_queries<R: CommandRunner, F: FileSystem>(
    runner: &R,
    fs: &F,
    service: Seq<char>,
    ctx: SystemContextView,
    steps: Seq<BackendStep>,
    inv: InvestigationView,
)
    requires
        engine_outcome(runner, fs, QueryView::Service(service), ctx, steps, inv),
    ensures
        inv.backend_status[2].backend == "filesystem"@,
        inv.backend_status[2].state == BackendStateView::Succeeded,
{
    let q = QueryView::Service(service);
    lemma_run_steps_shape(q, steps, 4);
    assert(backend_detected(fs, 2, ctx, steps[2].detected));
    assert(steps[2].detected);
    assert(backend_supports(2, q));
    let before = run_steps(q, steps, 2).graph;
    assert(backend_investigated(runner, fs, 2, ctx, q, before, steps[2].graph, steps[2].result));
    let f = choose|f: crate::backend::filesystem::FsFacts| #[trigger] crate::backend::filesystem::filesystem_read(
        *fs,
        ctx.path_env,
        before,
        q,
        f,
    ) && crate::backend::filesystem::filesystem_outcome(ctx.path_env, q, before, steps[2].graph, steps[2].result, f);
    assert(steps[2].result is Ok);
    let s2 = run_steps(q, steps, 2);
    let s3 = run_steps(q, steps, 3);
    let s4 = run_steps(q, steps, 4);
    assert(s3.backend_status == s2.backend_status.push(status("filesystem"@, BackendStateView::Succeeded)));
    assert(s3.backend_status[2].state == BackendStateView::Succeeded);
    assert(s4.backend_status[2] == s3.backend_status[2]);
}

} // verus!
