use vstd::prelude::*;
use crate::backend::command::{arg_views, command_result_view, CommandError, CommandOutput, CommandOutputView, CommandRunner};
pub use crate::backend::paths::containing_store_path;
use crate::backend::paths::{containing_store_path_spec, is_store_path_itself, path_parts_of};
use crate::backend::{Backend, BackendError, BackendErrorView, BackendOutput, BackendOutputView, SystemContext, SystemContextView};
use crate::domain::confidence::Confidence;
use crate::domain::entity::{Entity, EntityId, EntityKind, EntityView};
use crate::domain::evidence::Evidence;
use crate::domain::graph::{plain_entity, plain_evidence, single_relation, with_entity, with_relation, EvidenceGraph, GraphView};
use crate::domain::query::{Query, QueryView};
use crate::domain::relation::{Relation, RelationKind, RelationView};
use crate::domain::scan::{lines, lines_of, split_once, split_once_text, trim, trim_text, views};
use crate::domain::text::{debug_quoted, debug_text, owned};

verus! {

// ---------------------------------------------------------------------------
// Reading `nix-store --query --roots`
// ---------------------------------------------------------------------------

/// The root named on a line of `nix-store --query --roots` output: the part
/// before ` -> `, or the whole line.
pub open spec fn root_of_line(t: Seq<char>) -> Seq<char> {
    match split_once(t, " -> "@) {
        Some((a, _)) => a,
        None => t,
    }
}

/// The roots named on the given lines, skipping blank lines.
pub open spec fn roots_in_lines(ls: Seq<Seq<char>>) -> Seq<Seq<char>>
    decreases ls.len(),
{
    if ls.len() == 0 {
        Seq::empty()
    } else {
        let r = roots_in_lines(ls.drop_last());
        let t = trim(ls.last());
        if t.len() == 0 {
            r
        } else {
            r.push(root_of_line(t))
        }
    }
}

/// The roots in the output of `nix-store --query --roots`.
pub open spec fn parse_roots_spec(stdout: Seq<char>) -> Seq<Seq<char>> {
    roots_in_lines(lines(stdout))
}

/// Reads the roots from the output of `nix-store --query --roots`.
pub fn parse_roots(stdout: &str) -> (r: Vec<String>)
    ensures
        views(r@) == parse_roots_spec(stdout@),
{
    let ls = lines_of(stdout);
    let ghost lv = views(ls@);
    let mut r: Vec<String> = Vec::new();
    let mut i: usize = 0;
    while i < ls.len()
        invariant
            i <= ls.len(),
            lv == views(ls@),
            lv == lines(stdout@),
            views(r@) == roots_in_lines(lv.take(i as int)),
        decreases ls.len() - i,
    {
        assert(lv.take(i + 1).drop_last() =~= lv.take(i as int));
        assert(lv[i as int] == ls@[i as int]@);
        let t = trim_text(ls[i].as_str());
        if t.as_str().unicode_len() > 0 {
            let root = match split_once_text(t.as_str(), " -> ") {
                Some((a, _)) => a,
                None => t,
            };
            let ghost before = views(r@);
            r.push(root);
            assert(views(r@) =~= before.push(root@));
        }
        i += 1;
    }
    assert(lv.take(ls.len() as int) =~= lv);
    r
}

/// What `{:?}` writes for a command error.
pub open spec fn command_error_debug(m: Seq<char>) -> Seq<char> {
    "Io("@ + debug_quoted(m) + ")"@
}

/// The text `{:?}` writes for a command error.
pub fn command_error_text(e: &CommandError) -> (r: String)
    ensures
        r@ == command_error_debug(e@),
{
    match e {
        CommandError::Io(m) => {
            let mut r = owned("Io(");
            r.append(debug_text(m.as_str()).as_str());
            r.append(")");
            r
        },
    }
}

/// The roots, or the message explaining why there are none, given what
/// running `nix-store --query --roots <store_path>` gave.
pub open spec fn roots_outcome(store_path: Seq<char>, o: Result<CommandOutputView, Seq<char>>) -> Result<Seq<Seq<char>>, Seq<char>> {
    match o {
        Err(e) => Err("nix could not query roots for "@ + store_path + ": "@ + command_error_debug(e)),
        Ok(out) => if out.status != 0 {
            Err("nix-store --query --roots failed for "@ + store_path + ": "@ + trim(out.stderr))
        } else {
            Ok(parse_roots_spec(out.stdout))
        },
    }
}

/// The roots of `store_path`, from the result of running
/// `nix-store --query --roots` on it.
pub fn roots_from_command(store_path: &str, result: Result<CommandOutput, CommandError>) -> (r: Result<Vec<String>, String>)
    ensures
        match r {
            Ok(v) => roots_outcome(store_path@, command_result_view(result)) == Ok::<Seq<Seq<char>>, Seq<char>>(views(v@)),
            Err(m) => roots_outcome(store_path@, command_result_view(result)) == Err::<Seq<Seq<char>>, Seq<char>>(m@),
        },
{
    match result {
        Err(error) => {
            let mut m = owned("nix could not query roots for ");
            m.append(store_path);
            m.append(": ");
            m.append(command_error_text(&error).as_str());
            Err(m)
        },
        Ok(output) => {
            if output.status != 0 {
                let mut m = owned("nix-store --query --roots failed for ");
                m.append(store_path);
                m.append(": ");
                m.append(trim_text(output.stderr.as_str()).as_str());
                Err(m)
            } else {
                Ok(parse_roots(output.stdout.as_str()))
            }
        },
    }
}

// ---------------------------------------------------------------------------
// What the backend adds to the graph
// ---------------------------------------------------------------------------

/// The identifier of a file entity.
pub open spec fn file_id(path: Seq<char>) -> Seq<char> {
    "file:"@ + path
}

/// The identifier of a store path entity.
pub open spec fn store_id(path: Seq<char>) -> Seq<char> {
    "store-path:"@ + path
}

/// The relation from a path to the store path that contains it.
pub open spec fn belongs_relation(from: Seq<char>, store_path: Seq<char>) -> RelationView {
    single_relation(
        from,
        store_id(store_path),
        RelationKind::BelongsTo,
        Confidence::Exact,
        plain_evidence("nix"@, "/nix/store path detection"@, "Path is contained by this Nix store path"@, Confidence::Exact),
    )
}

/// The graph after recording that `from` belongs to `store_path`.
pub open spec fn add_belongs(g: GraphView, from: Seq<char>, store_path: Seq<char>) -> GraphView {
    with_relation(
        with_entity(g, plain_entity(store_id(store_path), EntityKind::StorePath, store_path)),
        belongs_relation(from, store_path),
    )
}

/// The relation from a store path to a root that keeps it alive.
pub open spec fn reachable_relation(from: Seq<char>, root: Seq<char>) -> RelationView {
    single_relation(
        from,
        file_id(root),
        RelationKind::ReachableFrom,
        Confidence::Exact,
        plain_evidence(
            "nix"@,
            "nix-store --query --roots"@,
            "Nix reports this path as a GC root keeping the store path reachable"@,
            Confidence::Exact,
        ),
    )
}

/// The graph after recording the roots of the store path `from`.
pub open spec fn add_roots(g: GraphView, from: Seq<char>, roots: Seq<Seq<char>>) -> GraphView
    decreases roots.len(),
{
    if roots.len() == 0 {
        g
    } else {
        let g1 = add_roots(g, from, roots.drop_last());
        with_relation(
            with_entity(g1, plain_entity(file_id(roots.last()), EntityKind::File, roots.last())),
            reachable_relation(from, roots.last()),
        )
    }
}

fn add_store_path_relation(graph: &mut EvidenceGraph, from: EntityId, store_path: &str)
    ensures
        final(graph)@ == add_belongs(old(graph)@, from@, store_path@),
{
    let mut sid = owned("store-path:");
    sid.append(store_path);
    let store = EntityId::from_string(sid);
    let store2 = store.duplicate();
    graph.add_entity(Entity::new(store, EntityKind::StorePath, store_path));
    let ev = vec![Evidence::new("nix", "/nix/store path detection", "Path is contained by this Nix store path", Confidence::Exact)];
    assert(crate::domain::relation::evidence_views(ev@) =~= seq![ev@[0]@]);
    let rel = Relation::new(from, store2, RelationKind::BelongsTo, Confidence::Exact, ev);
    assert(rel@ == belongs_relation(from@, store_path@));
    graph.add_relation(rel);
}

fn add_reachable_from_relation(graph: &mut EvidenceGraph, from: &EntityId, root: &str)
    ensures
        final(graph)@ == with_relation(
            with_entity(old(graph)@, plain_entity(file_id(root@), EntityKind::File, root@)),
            reachable_relation(from@, root@),
        ),
{
    let mut rid = owned("file:");
    rid.append(root);
    let root_id = EntityId::from_string(rid);
    let root_id2 = root_id.duplicate();
    graph.add_entity(Entity::new(root_id, EntityKind::File, root));
    let ev = vec![Evidence::new(
        "nix",
        "nix-store --query --roots",
        "Nix reports this path as a GC root keeping the store path reachable",
        Confidence::Exact,
    )];
    assert(crate::domain::relation::evidence_views(ev@) =~= seq![ev@[0]@]);
    let rel = Relation::new(from.duplicate(), root_id2, RelationKind::ReachableFrom, Confidence::Exact, ev);
    assert(rel@ == reachable_relation(from@, root@));
    graph.add_relation(rel);
}


// ---------------------------------------------------------------------------
// Investigating
// ---------------------------------------------------------------------------

/// The views of a list of identifier and name pairs.
pub open spec fn pair_views(v: Seq<(EntityId, String)>) -> Seq<(Seq<char>, Seq<char>)> {
    v.map_values(|p: (EntityId, String)| (p.0@, p.1@))
}

/// Whether some relation resolves the entity `id` to another path.
pub open spec fn has_resolution(rels: Seq<RelationView>, id: Seq<char>) -> bool {
    exists|j: int| 0 <= j < rels.len() && rels[j].from == id && rels[j].kind == RelationKind::ResolvesTo
}

/// Whether an entity is a file or an executable.
pub open spec fn is_path_entity(e: EntityView) -> bool {
    e.kind == EntityKind::File || e.kind == EntityKind::Executable
}

/// The identifier and name of an entity.
pub open spec fn id_and_name(e: EntityView) -> (Seq<char>, Seq<char>) {
    (e.id, e.name)
}

/// The file and executable entities that no relation resolves further, in
/// identifier order.
pub open spec fn unresolved_paths(g: GraphView) -> Seq<(Seq<char>, Seq<char>)> {
    g.entities.filter(|e: EntityView| is_path_entity(e) && !has_resolution(g.relations, e.id)).map_values(
        |e: EntityView| id_and_name(e),
    )
}

/// The store path entities, in identifier order.
pub open spec fn store_paths_of(g: GraphView) -> Seq<(Seq<char>, Seq<char>)> {
    g.entities.filter(|e: EntityView| e.kind == EntityKind::StorePath).map_values(|e: EntityView| id_and_name(e))
}

/// The graph after recording, for each candidate path, the store path that
/// contains it; and whether any was found.
pub open spec fn belongs_fold(g: GraphView, cands: Seq<(Seq<char>, Seq<char>)>) -> (GraphView, bool)
    decreases cands.len(),
{
    if cands.len() == 0 {
        (g, false)
    } else {
        let (g1, found) = belongs_fold(g, cands.drop_last());
        match containing_store_path_spec(cands.last().1) {
            Some(sp) => (add_belongs(g1, cands.last().0, sp), true),
            None => (g1, found),
        }
    }
}

/// The graph after recording the roots of each store path, given what the
/// command reported for each; the messages for the store paths whose roots
/// could not be read; and whether any root was recorded.
pub open spec fn roots_fold(
    g: GraphView,
    cands: Seq<(Seq<char>, Seq<char>)>,
    outs: Seq<Result<CommandOutputView, Seq<char>>>,
) -> (GraphView, Seq<Seq<char>>, bool)
    decreases cands.len(),
{
    if cands.len() == 0 || outs.len() == 0 {
        (g, Seq::empty(), false)
    } else {
        let (g1, inc, found) = roots_fold(g, cands.drop_last(), outs.drop_last());
        match roots_outcome(cands.last().1, outs.last()) {
            Ok(roots) => (add_roots(g1, cands.last().0, roots), inc, found || roots.len() > 0),
            Err(m) => (g1, inc.push(m), found),
        }
    }
}

/// What a store path query adds: the graph, the matches, the gaps, and
/// whether the graph was enriched.
pub open spec fn nix_query_step(g: GraphView, q: QueryView) -> (GraphView, Seq<Seq<char>>, Seq<Seq<char>>, bool) {
    match q {
        QueryView::StorePath(p) => match containing_store_path_spec(p) {
            None => (g, Seq::empty(), seq!["nix could not identify a containing store path for "@ + p], false),
            Some(sp) => if is_store_path_itself(p) {
                (with_entity(g, plain_entity(store_id(sp), EntityKind::StorePath, sp)), seq![store_id(sp)], Seq::empty(), true)
            } else {
                (
                    add_belongs(with_entity(g, plain_entity(file_id(p), EntityKind::File, p)), file_id(p), sp),
                    seq![file_id(p)],
                    Seq::empty(),
                    true,
                )
            },
        },
        _ => (g, Seq::empty(), Seq::empty(), false),
    }
}

/// What the Nix backend does with graph `g` for query `q`, given what
/// `nix-store --query --roots` reported for each store path in turn.
pub open spec fn nix_investigation(
    g: GraphView,
    q: QueryView,
    outs: Seq<Result<CommandOutputView, Seq<char>>>,
) -> (GraphView, BackendOutputView) {
    let (g1, matches, inc1, found1) = nix_query_step(g, q);
    let (g2, found2) = belongs_fold(g1, unresolved_paths(g1));
    let (g3, inc3, found3) = roots_fold(g2, store_paths_of(g2), outs);
    let incomplete = inc1 + inc3;
    (
        g3,
        BackendOutputView {
            matches,
            incomplete: if found1 || found2 || found3 {
                incomplete
            } else {
                incomplete.push("nix did not find any /nix/store paths in the current graph"@)
            },
        },
    )
}

/// Whether turning `before` into `after` with result `r` is what the nix
/// backend does for `q`, for some replies of `nix-store --query --roots`:
/// it never fails.
pub open spec fn nix_outcome<R: CommandRunner>(
    runner: R,
    q: QueryView,
    before: GraphView,
    after: GraphView,
    r: Result<BackendOutputView, BackendErrorView>,
) -> bool {
    &&& r is Ok
    &&& exists|outs: Seq<Result<CommandOutputView, Seq<char>>>| #[trigger] roots_asked(runner, before, q, outs)
        && (after, r->Ok_0) == nix_investigation(before, q, outs)
}

/// The arguments of `nix-store` that ask for the roots of `store_path`.
pub open spec fn roots_args(store_path: Seq<char>) -> Seq<Seq<char>> {
    seq!["--query"@, "--roots"@, store_path]
}

/// The store paths whose roots are asked for, after the query step and the
/// store paths of the paths in the graph are recorded.
pub open spec fn roots_asked_for(g: GraphView, q: QueryView) -> Seq<(Seq<char>, Seq<char>)> {
    let g1 = nix_query_step(g, q).0;
    store_paths_of(belongs_fold(g1, unresolved_paths(g1)).0)
}

/// Whether each reply in `outs` is one the runner may give when asked for
/// the roots of the store path in its place.
pub open spec fn roots_replied<R: CommandRunner>(
    runner: R,
    g: GraphView,
    q: QueryView,
    outs: Seq<Result<CommandOutputView, Seq<char>>>,
) -> bool {
    forall|i: int|
        0 <= i < outs.len() ==> runner.may_reply("nix-store"@, roots_args(roots_asked_for(g, q)[i].1), #[trigger] outs[i])
}

/// Whether `outs` holds one reply for each store path whose roots are asked
/// for, in order, each one the runner may give to that question.
pub open spec fn roots_asked<R: CommandRunner>(
    runner: R,
    g: GraphView,
    q: QueryView,
    outs: Seq<Result<CommandOutputView, Seq<char>>>,
) -> bool {
    &&& outs.len() == roots_asked_for(g, q).len()
    &&& roots_replied(runner, g, q, outs)
}

fn resolves_further(graph: &EvidenceGraph, id: &EntityId) -> (r: bool)
    ensures
        r == has_resolution(graph@.relations, id@),
{
    let n = graph.relation_count();
    let mut j: usize = 0;
    while j < n
        invariant
            n == graph@.relations.len(),
            j <= n,
            forall|k: int| 0 <= k < j ==> !(graph@.relations[k].from == id@ && graph@.relations[k].kind == RelationKind::ResolvesTo),
        decreases n - j,
    {
        let r = graph.relation_at(j);
        if r.from.same(id) && r.kind == RelationKind::ResolvesTo {
            return true;
        }
        j += 1;
    }
    false
}

/// The file and executable entities of the graph that no relation resolves
/// further, as identifier and name.
pub fn unresolved_path_entities(graph: &EvidenceGraph) -> (r: Vec<(EntityId, String)>)
    ensures
        pair_views(r@) == unresolved_paths(graph@),
{
    let ghost pred = |e: EntityView| is_path_entity(e) && !has_resolution(graph@.relations, e.id);
    let n = graph.entity_count();
    let mut r: Vec<(EntityId, String)> = Vec::new();
    let mut i: usize = 0;
    while i < n
        invariant
            n == graph@.entities.len(),
            i <= n,
            pred == (|e: EntityView| is_path_entity(e) && !has_resolution(graph@.relations, e.id)),
            pair_views(r@) == graph@.entities.take(i as int).filter(pred).map_values(|e: EntityView| id_and_name(e)),
        decreases n - i,
    {
        let e = graph.entity_at(i);
        proof {
            reveal_with_fuel(Seq::filter, 1);
            assert(graph@.entities.take(i + 1).drop_last() =~= graph@.entities.take(i as int));
        }
        let ghost before = graph@.entities.take(i as int).filter(pred);
        if (e.kind == EntityKind::File || e.kind == EntityKind::Executable) && !resolves_further(graph, &e.id) {
            let ghost pv = pair_views(r@);
            r.push((e.id.duplicate(), e.name.clone()));
            assert(pair_views(r@) =~= pv.push((e@.id, e@.name)));
            assert(graph@.entities.take(i + 1).filter(pred) == before.push(e@));
            assert(before.push(e@).map_values(|e: EntityView| id_and_name(e)) =~= before.map_values(|e: EntityView| id_and_name(e)).push(id_and_name(e@)));
        } else {
            assert(graph@.entities.take(i + 1).filter(pred) == before);
        }
        i += 1;
    }
    assert(graph@.entities.take(n as int) =~= graph@.entities);
    r
}

/// The store path entities of the graph, as identifier and name.
pub fn store_path_entities(graph: &EvidenceGraph) -> (r: Vec<(EntityId, String)>)
    ensures
        pair_views(r@) == store_paths_of(graph@),
{
    let ghost pred = |e: EntityView| e.kind == EntityKind::StorePath;
    let n = graph.entity_count();
    let mut r: Vec<(EntityId, String)> = Vec::new();
    let mut i: usize = 0;
    while i < n
        invariant
            n == graph@.entities.len(),
            i <= n,
            pred == (|e: EntityView| e.kind == EntityKind::StorePath),
            pair_views(r@) == graph@.entities.take(i as int).filter(pred).map_values(|e: EntityView| id_and_name(e)),
        decreases n - i,
    {
        let e = graph.entity_at(i);
        proof {
            reveal_with_fuel(Seq::filter, 1);
            assert(graph@.entities.take(i + 1).drop_last() =~= graph@.entities.take(i as int));
        }
        let ghost before = graph@.entities.take(i as int).filter(pred);
        if e.kind == EntityKind::StorePath {
            let ghost pv = pair_views(r@);
            r.push((e.id.duplicate(), e.name.clone()));
            assert(pair_views(r@) =~= pv.push((e@.id, e@.name)));
            assert(graph@.entities.take(i + 1).filter(pred) == before.push(e@));
            assert(before.push(e@).map_values(|e: EntityView| id_and_name(e)) =~= before.map_values(|e: EntityView| id_and_name(e)).push(id_and_name(e@)));
        } else {
            assert(graph@.entities.take(i + 1).filter(pred) == before);
        }
        i += 1;
    }
    assert(graph@.entities.take(n as int) =~= graph@.entities);
    r
}


fn add_query_store_path(graph: &mut EvidenceGraph, query_path: &str) -> (r: Option<EntityId>)
    ensures
        match containing_store_path_spec(query_path@) {
            None => r is None && final(graph)@ == old(graph)@,
            Some(_) => r is Some && final(graph)@ == nix_query_step(old(graph)@, QueryView::StorePath(query_path@)).0
                && seq![r->0@] == nix_query_step(old(graph)@, QueryView::StorePath(query_path@)).1,
        },
{
    let store_path = match containing_store_path(query_path) {
        Some(sp) => sp,
        None => return None,
    };
    let parts = path_parts_of(query_path);
    if parts.len() == 3 {
        let mut sid = owned("store-path:");
        sid.append(store_path.as_str());
        let id = graph.add_entity(Entity::new(EntityId::from_string(sid), EntityKind::StorePath, store_path.as_str()));
        return Some(id);
    }
    let mut fid = owned("file:");
    fid.append(query_path);
    let file_id_value = graph.add_entity(Entity::new(EntityId::from_string(fid), EntityKind::File, query_path));
    add_store_path_relation(graph, file_id_value.duplicate(), store_path.as_str());
    Some(file_id_value)
}

/// Runs the Nix backend on a graph.
pub struct NixBackend<R> {
    runner: R,
}

impl<R> NixBackend<R> {
    /// The command runner of this backend.
    pub closed spec fn runner_of(&self) -> R {
        self.runner
    }

    pub fn with_runner(runner: R) -> (r: Self)
        ensures
            r.runner_of() == runner,
    {
        NixBackend { runner }
    }
}

impl<R: CommandRunner> NixBackend<R> {
    /// The roots of `store_path`, with what the command reported.
    fn query_roots(&self, store_path: &str) -> (r: (Result<Vec<String>, String>, Ghost<Result<CommandOutputView, Seq<char>>>))
        ensures
            self.runner_of().may_reply("nix-store"@, roots_args(store_path@), r.1@),
            match r.0 {
                Ok(v) => roots_outcome(store_path@, r.1@) == Ok::<Seq<Seq<char>>, Seq<char>>(views(v@)),
                Err(m) => roots_outcome(store_path@, r.1@) == Err::<Seq<Seq<char>>, Seq<char>>(m@),
            },
    {
        let args = ["--query", "--roots", store_path];
        proof {
            reveal_strlit("--query");
            reveal_strlit("--roots");
            assert(arg_views(args@) =~= roots_args(store_path@));
        }
        let result = self.runner.run("nix-store", &args);
        let ghost o = command_result_view(result);
        (roots_from_command(store_path, result), Ghost(o))
    }
}

impl<R: CommandRunner> Backend for NixBackend<R> {
    open spec fn spec_name(&self) -> Seq<char> {
        "nix"@
    }

    open spec fn spec_supports(&self, query: QueryView) -> bool {
        true
    }

    fn name(&self) -> (r: &'static str) {
        "nix"
    }

    open spec fn spec_detected(&self, context: SystemContextView, r: bool) -> bool {
        r == context.has_nix_store
    }

    open spec fn spec_investigated(
        &self,
        query: QueryView,
        before: GraphView,
        after: GraphView,
        r: Result<BackendOutputView, BackendErrorView>,
    ) -> bool {
        nix_outcome(self.runner_of(), query, before, after, r)
    }

    fn detect(&self, context: &SystemContext) -> (r: bool) {
        context.has_nix_store
    }

    fn supports(&self, query: &Query) -> (r: bool) {
        true
    }

    fn investigate(&self, query: &Query, graph: &mut EvidenceGraph) -> (r: Result<BackendOutput, BackendError>)
    {
        let ghost g0 = graph@;
        let mut output = BackendOutput::new();
        let mut enriched = false;
        if let Query::StorePath(path) = query {
            match add_query_store_path(graph, path.as_str()) {
                Some(id) => {
                    output = output.with_match(id);
                    enriched = true;
                },
                None => {
                    let mut m = owned("nix could not identify a containing store path for ");
                    m.append(path.as_str());
                    output = output.with_incomplete(m);
                },
            }
        }
        let ghost step = nix_query_step(g0, query@);
        assert(graph@ == step.0);
        assert(output@.matches =~= step.1);
        assert(output@.incomplete =~= step.2);
        assert(enriched == step.3);
        let ghost g1 = graph@;
        let cands = unresolved_path_entities(graph);
        let ghost cv = pair_views(cands@);
        let mut i: usize = 0;
        while i < cands.len()
            invariant
                i <= cands.len(),
                cv == pair_views(cands@),
                cv.len() == cands.len(),
                (graph@, enriched) == (belongs_fold(g1, cv.take(i as int)).0, step.3 || belongs_fold(g1, cv.take(i as int)).1),
                output@.matches == step.1,
                output@.incomplete == step.2,
            decreases cands.len() - i,
        {
            assert(cv.take(i + 1).drop_last() =~= cv.take(i as int));
            assert(cv[i as int] == (cands@[i as int].0@, cands@[i as int].1@));
            if let Some(sp) = containing_store_path(cands[i].1.as_str()) {
                add_store_path_relation(graph, cands[i].0.duplicate(), sp.as_str());
                enriched = true;
            }
            i += 1;
        }
        assert(cv.take(cands.len() as int) =~= cv);
        let ghost g2 = graph@;
        let ghost found2 = belongs_fold(g1, cv).1;
        assert(g2 == belongs_fold(g1, unresolved_paths(g1)).0);
        let stores = store_path_entities(graph);
        let ghost sv = pair_views(stores@);
        let ghost mut outs: Seq<Result<CommandOutputView, Seq<char>>> = Seq::empty();
        let mut k: usize = 0;
        while k < stores.len()
            invariant
                k <= stores.len(),
                sv == pair_views(stores@),
                sv.len() == stores.len(),
                outs.len() == k,
                sv == roots_asked_for(g0, query@),
                roots_replied(self.runner_of(), g0, query@, outs),
                graph@ == roots_fold(g2, sv.take(k as int), outs).0,
                output@.incomplete == step.2 + roots_fold(g2, sv.take(k as int), outs).1,
                enriched == (step.3 || found2 || roots_fold(g2, sv.take(k as int), outs).2),
                output@.matches == step.1,
            decreases stores.len() - k,
        {
            assert(sv[k as int] == (stores@[k as int].0@, stores@[k as int].1@));
            let (res, Ghost(o)) = self.query_roots(stores[k].1.as_str());
            let ghost prev = roots_fold(g2, sv.take(k as int), outs);
            let ghost outs_before = outs;
            proof {
                outs = outs.push(o);
                assert forall|j: int| 0 <= j < outs.len() implies self.runner_of().may_reply(
                    "nix-store"@,
                    roots_args(roots_asked_for(g0, query@)[j].1),
                    #[trigger] outs[j],
                ) by {
                    if j < k {
                        assert(outs[j] == outs_before[j]);
                    }
                }
                assert(sv.take(k + 1).drop_last() =~= sv.take(k as int));
                assert(outs.drop_last() =~= outs_before);
                assert(sv.take(k + 1).last() == sv[k as int]);
                assert(outs.last() == o);
            }
            match res {
                Ok(roots) => {
                    let ghost rv = views(roots@);
                    let mut j: usize = 0;
                    let ghost g_before = graph@;
                    let ghost en_before = enriched;
                    while j < roots.len()
                        invariant
                            j <= roots.len(),
                            rv == views(roots@),
                            rv.len() == roots.len(),
                            k < stores.len(),
                            sv.len() == stores.len(),
                            graph@ == add_roots(g_before, sv[k as int].0, rv.take(j as int)),
                            enriched == (en_before || j > 0),
                            sv[k as int].0 == stores@[k as int].0@,
                        decreases roots.len() - j,
                    {
                        assert(rv.take(j + 1).drop_last() =~= rv.take(j as int));
                        assert(rv[j as int] == roots@[j as int]@);
                        add_reachable_from_relation(graph, &stores[k].0, roots[j].as_str());
                        enriched = true;
                        j += 1;
                    }
                    assert(rv.take(roots.len() as int) =~= rv);
                },
                Err(m) => {
                    let ghost before = output@.incomplete;
                    output = output.with_incomplete(m);
                    assert(output@.incomplete =~= step.2 + prev.1.push(m@));
                },
            }
            k += 1;
        }
        assert(sv.take(stores.len() as int) =~= sv);
        let result = if enriched {
            output
        } else {
            output.with_incomplete(owned("nix did not find any /nix/store paths in the current graph"))
        };
        assert((graph@, result@) == nix_investigation(g0, query@, outs));
        assert(roots_asked(self.runner_of(), g0, query@, outs));
        Ok(result)
    }
}

} // verus!
