use vstd::prelude::*;
use crate::backend::command::{arg_views, command_result_view, CommandOutput, CommandOutputView, CommandRunner};
use crate::backend::nix::{command_error_debug, command_error_text, file_id};
use crate::backend::{backend_result_view, Backend, BackendError, BackendErrorView, BackendOutput, BackendOutputView, SystemContext, SystemContextView};
use crate::domain::confidence::Confidence;
use crate::domain::entity::{meta_get, meta_insert, Entity, EntityId, EntityKind, EntityView, Metadata};
use crate::domain::evidence::Evidence;
use crate::domain::graph_laws::{has_edge, lemma_relations_add_edges};
use crate::match_laws::{lemma_with_entity_grows, present as has_entity};
use crate::domain::graph::{plain_entity, plain_evidence, single_relation, with_entity, with_relation, EvidenceGraph, GraphView};
use crate::domain::number::{decimal, parse_unsigned, parse_unsigned_max, push_decimal};
use crate::domain::query::{Query, QueryView};
use crate::domain::relation::{Relation, RelationKind};
use crate::domain::scan::{contains_char, lines, lines_of, split_once, split_once_text, trim, trim_text, views};
use crate::domain::text::{chars_of, is_uppercase, lowercase, lowercase_text, owned, push_char, uppercase};

verus! {

// ---------------------------------------------------------------------------
// Names and properties
// ---------------------------------------------------------------------------

/// The unit a service query names: the name itself where it has a dot,
/// else the name with `.service` appended.
pub open spec fn unit_name(service: Seq<char>) -> Seq<char> {
    if service.contains('.') {
        service
    } else {
        service + ".service"@
    }
}

pub fn normalize_unit_name(service: &str) -> (r: String)
    ensures
        r@ == unit_name(service@),
{
    if contains_char(service, '.') {
        owned(service)
    } else {
        let mut r = owned(service);
        r.append(".service");
        r
    }
}

/// The properties in `systemctl show` output lines: every line with an `=`
/// sets the property before it to the text after it, later lines winning.
pub open spec fn properties_in_lines(ls: Seq<Seq<char>>) -> Seq<(Seq<char>, Seq<char>)>
    decreases ls.len(),
{
    if ls.len() == 0 {
        Seq::empty()
    } else {
        let m = properties_in_lines(ls.drop_last());
        match split_once(ls.last(), "="@) {
            Some((k, v)) => meta_insert(m, k, v),
            None => m,
        }
    }
}

/// The properties in the output of `systemctl show`.
pub open spec fn show_properties(stdout: Seq<char>) -> Seq<(Seq<char>, Seq<char>)> {
    properties_in_lines(lines(stdout))
}

/// Reads the properties from the output of `systemctl show`.
pub fn parse_show_output(stdout: &str) -> (r: Metadata)
    ensures
        r@ == show_properties(stdout@),
{
    let ls = lines_of(stdout);
    let ghost lv = views(ls@);
    let mut m = Metadata::new();
    let mut i: usize = 0;
    while i < ls.len()
        invariant
            i <= ls.len(),
            lv == views(ls@),
            lv == lines(stdout@),
            m@ == properties_in_lines(lv.take(i as int)),
        decreases ls.len() - i,
    {
        assert(lv.take(i + 1).drop_last() =~= lv.take(i as int));
        assert(lv[i as int] == ls@[i as int]@);
        if let Some((k, v)) = split_once_text(ls[i].as_str(), "=") {
            m.insert(k, v);
        }
        i += 1;
    }
    assert(lv.take(ls.len() as int) =~= lv);
    m
}

/// The metadata key for a `systemctl show` property: `MainPID` becomes
/// `main_pid`; otherwise each uppercase letter becomes its lowercase form,
/// with an underscore before it unless it is first.
pub open spec fn metadata_key(key: Seq<char>) -> Seq<char> {
    if key == "MainPID"@ {
        "main_pid"@
    } else {
        snake_case(key)
    }
}

/// The lowercase-with-underscores form of a key.
pub open spec fn snake_case(key: Seq<char>) -> Seq<char>
    decreases key.len(),
{
    if key.len() == 0 {
        Seq::empty()
    } else {
        let prefix = snake_case(key.drop_last());
        let c = key.last();
        if uppercase(c) {
            if key.len() > 1 {
                prefix.push('_') + lowercase(c)
            } else {
                prefix + lowercase(c)
            }
        } else {
            prefix.push(c)
        }
    }
}

pub fn to_metadata_key(key: &str) -> (r: String)
    ensures
        r@ == metadata_key(key@),
{
    if crate::domain::text::text_eq(key, "MainPID") {
        return owned("main_pid");
    }
    let v = chars_of(key);
    let mut r = String::new();
    let mut i: usize = 0;
    while i < v.len()
        invariant
            i <= v.len(),
            v@ == key@,
            r@ == snake_case(v@.take(i as int)),
        decreases v.len() - i,
    {
        assert(v@.take(i + 1).drop_last() =~= v@.take(i as int));
        let c = v[i];
        assert(v@.take(i + 1).last() == c);
        assert(v@.take(i + 1).len() == i + 1);
        if is_uppercase(c) {
            if i != 0 {
                push_char(&mut r, '_');
            }
            r.append(lowercase_text(c).as_str());
        } else {
            push_char(&mut r, c);
        }
        assert(r@ =~= snake_case(v@.take(i + 1)));
        i += 1;
    }
    assert(v@.take(v.len() as int) =~= v@);
    r
}

// ---------------------------------------------------------------------------
// What the backend adds to the graph
// ---------------------------------------------------------------------------

/// A property value, where it is present and not empty.
pub open spec fn present(props: Seq<(Seq<char>, Seq<char>)>, key: Seq<char>) -> Option<Seq<char>> {
    match meta_get(props, key) {
        Some(v) => if v.len() > 0 { Some(v) } else { None },
        None => None,
    }
}

/// The metadata after copying the property `key`, where present, under its
/// metadata key.
pub open spec fn copy_property(m: Seq<(Seq<char>, Seq<char>)>, props: Seq<(Seq<char>, Seq<char>)>, key: Seq<char>) -> Seq<(Seq<char>, Seq<char>)> {
    match present(props, key) {
        Some(v) => meta_insert(m, metadata_key(key), v),
        None => m,
    }
}

/// The identifier of a systemd service entity.
pub open spec fn service_id(unit: Seq<char>) -> Seq<char> {
    "service:systemd:"@ + unit
}

/// The service entity for a unit and its properties.
pub open spec fn service_entity(unit: Seq<char>, props: Seq<(Seq<char>, Seq<char>)>) -> EntityView {
    EntityView {
        id: service_id(unit),
        kind: EntityKind::Service,
        name: match present(props, "Id"@) {
            Some(n) => n,
            None => unit,
        },
        metadata: copy_property(
            copy_property(
                copy_property(copy_property(Seq::empty(), props, "LoadState"@), props, "ActiveState"@),
                props,
                "SubState"@,
            ),
            props,
            "MainPID"@,
        ),
    }
}

/// The graph after recording the unit's fragment file, where there is one.
pub open spec fn add_fragment(g: GraphView, unit: Seq<char>, props: Seq<(Seq<char>, Seq<char>)>) -> GraphView {
    match present(props, "FragmentPath"@) {
        None => g,
        Some(path) => with_relation(
            with_entity(g, plain_entity(file_id(path), EntityKind::File, path)),
            single_relation(
                service_id(unit),
                file_id(path),
                RelationKind::ConfiguredBy,
                Confidence::Exact,
                plain_evidence(
                    "systemd"@,
                    "systemctl show "@ + unit + " --property=FragmentPath"@,
                    "systemd reports this unit fragment path"@,
                    Confidence::Exact,
                ),
            ),
        ),
    }
}

/// The main process of a unit: a `MainPID` that parses and is not zero.
pub open spec fn main_pid(props: Seq<(Seq<char>, Seq<char>)>) -> Option<nat> {
    match meta_get(props, "MainPID"@) {
        Some(v) => match parse_unsigned(v, 0xffff_ffff) {
            Some(p) => if p != 0 { Some(p) } else { None },
            None => None,
        },
        None => None,
    }
}

/// The identifier of a process entity.
pub open spec fn process_id(pid: nat) -> Seq<char> {
    "process:"@ + decimal(pid)
}

/// The placeholder name of a process entity.
pub open spec fn pid_name(pid: nat) -> Seq<char> {
    "PID "@ + decimal(pid)
}

/// The graph after recording the unit's main process, where there is one.
pub open spec fn add_main_pid(g: GraphView, unit: Seq<char>, props: Seq<(Seq<char>, Seq<char>)>) -> GraphView {
    match main_pid(props) {
        None => g,
        Some(pid) => with_relation(
            with_entity(g, plain_entity(process_id(pid), EntityKind::Process, pid_name(pid))),
            single_relation(
                service_id(unit),
                process_id(pid),
                RelationKind::Uses,
                Confidence::Exact,
                plain_evidence(
                    "systemd"@,
                    "systemctl show "@ + unit + " --property=MainPID"@,
                    "systemd reports this unit main process"@,
                    Confidence::Exact,
                ),
            ),
        ),
    }
}

/// The properties of `unit`, or the error, given what `systemctl show`
/// reported.
pub open spec fn show_outcome(unit: Seq<char>, o: Result<CommandOutputView, Seq<char>>) -> Result<Seq<(Seq<char>, Seq<char>)>, BackendErrorView> {
    match o {
        Err(e) => Err(BackendErrorView::Failed("systemctl show failed: "@ + command_error_debug(e))),
        Ok(out) => if out.status != 0 {
            Err(BackendErrorView::Failed("systemctl show "@ + unit + " failed: "@ + trim(out.stderr)))
        } else {
            Ok(show_properties(out.stdout))
        },
    }
}

/// What the systemd backend does with graph `g` for query `q`, given what
/// `systemctl show` reported.
pub open spec fn systemd_investigation(
    g: GraphView,
    q: QueryView,
    o: Result<CommandOutputView, Seq<char>>,
) -> (GraphView, Result<BackendOutputView, BackendErrorView>) {
    match q {
        QueryView::Service(service) => {
            let unit = unit_name(service);
            match show_outcome(unit, o) {
                Err(e) => (g, Err(e)),
                Ok(props) => if props.len() == 0 {
                    (g, Ok(BackendOutputView { matches: Seq::empty(), incomplete: seq!["systemd returned no data for "@ + unit] }))
                } else {
                    let g1 = with_entity(g, service_entity(unit, props));
                    (
                        add_main_pid(add_fragment(g1, unit, props), unit, props),
                        Ok(BackendOutputView { matches: seq![service_id(unit)], incomplete: Seq::empty() }),
                    )
                },
            }
        },
        _ => (g, Err(BackendErrorView::UnsupportedQuery)),
    }
}

/// Whether turning `before` into `after` with result `r` is what the
/// systemd backend does for `q`, for some reply of `systemctl show`.
pub open spec fn systemd_outcome<R: CommandRunner>(
    runner: R,
    q: QueryView,
    before: GraphView,
    after: GraphView,
    r: Result<BackendOutputView, BackendErrorView>,
) -> bool {
    exists|o: Result<CommandOutputView, Seq<char>>| #[trigger] show_asked(runner, q, o)
        && (after, r) == systemd_investigation(before, q, o)
}

/// The arguments of `systemctl` that ask for the properties of `unit`.
pub open spec fn show_args(unit: Seq<char>) -> Seq<Seq<char>> {
    seq![
        "show"@,
        unit,
        "--property=Id"@,
        "--property=LoadState"@,
        "--property=ActiveState"@,
        "--property=SubState"@,
        "--property=FragmentPath"@,
        "--property=MainPID"@,
    ]
}

/// Whether, for a service query, `o` is a reply the runner may give when
/// asked for the properties of the service's unit.
pub open spec fn show_asked<R: CommandRunner>(runner: R, q: QueryView, o: Result<CommandOutputView, Seq<char>>) -> bool {
    q matches QueryView::Service(service) ==> runner.may_reply("systemctl"@, show_args(unit_name(service)), o)
}


fn present_value<'a>(props: &'a Metadata, key: &str) -> (r: Option<&'a String>)
    ensures
        match r {
            Some(v) => present(props@, key@) == Some(v@),
            None => present(props@, key@) is None,
        },
{
    match props.get(key) {
        Some(v) => if v.as_str().unicode_len() > 0 {
            Some(v)
        } else {
            None
        },
        None => None,
    }
}

fn copy_property_into(m: &mut Metadata, props: &Metadata, key: &str)
    ensures
        final(m)@ == copy_property(old(m)@, props@, key@),
{
    if let Some(v) = present_value(props, key) {
        m.insert(to_metadata_key(key), v.clone());
    }
}

fn add_service_entity(graph: &mut EvidenceGraph, unit: &str, props: &Metadata) -> (r: EntityId)
    ensures
        r@ == service_id(unit@),
        final(graph)@ == with_entity(old(graph)@, service_entity(unit@, props@)),
{
    let mut sid = owned("service:systemd:");
    sid.append(unit);
    let name = match present_value(props, "Id") {
        Some(n) => n.clone(),
        None => owned(unit),
    };
    let mut entity = Entity::with_name(EntityId::from_string(sid), EntityKind::Service, name);
    copy_property_into(&mut entity.metadata, props, "LoadState");
    copy_property_into(&mut entity.metadata, props, "ActiveState");
    copy_property_into(&mut entity.metadata, props, "SubState");
    copy_property_into(&mut entity.metadata, props, "MainPID");
    assert(entity@ == service_entity(unit@, props@));
    graph.add_entity(entity)
}

fn add_fragment_relation(graph: &mut EvidenceGraph, service: &EntityId, unit: &str, props: &Metadata)
    requires
        service@ == service_id(unit@),
    ensures
        final(graph)@ == add_fragment(old(graph)@, unit@, props@),
{
    let path = match present_value(props, "FragmentPath") {
        Some(p) => p,
        None => return,
    };
    let mut fid = owned("file:");
    fid.append(path.as_str());
    let file = graph.add_entity(Entity::new(EntityId::from_string(fid), EntityKind::File, path.as_str()));
    let mut source = owned("systemctl show ");
    source.append(unit);
    source.append(" --property=FragmentPath");
    let ev = vec![Evidence::with_source("systemd", source, "systemd reports this unit fragment path", Confidence::Exact)];
    assert(crate::domain::relation::evidence_views(ev@) =~= seq![ev@[0]@]);
    graph.add_relation(Relation::new(service.duplicate(), file, RelationKind::ConfiguredBy, Confidence::Exact, ev));
}

fn add_main_pid_relation(graph: &mut EvidenceGraph, service: &EntityId, unit: &str, props: &Metadata)
    requires
        service@ == service_id(unit@),
    ensures
        final(graph)@ == add_main_pid(old(graph)@, unit@, props@),
{
    let pid = match props.get("MainPID") {
        Some(v) => match parse_unsigned_max(v.as_str(), 0xffff_ffff) {
            Some(p) => if p != 0 {
                p
            } else {
                return;
            },
            None => return,
        },
        None => return,
    };
    let mut pid_id = owned("process:");
    push_decimal(&mut pid_id, pid);
    let mut name = owned("PID ");
    push_decimal(&mut name, pid);
    let process = graph.add_entity(Entity::with_name(EntityId::from_string(pid_id), EntityKind::Process, name));
    let mut source = owned("systemctl show ");
    source.append(unit);
    source.append(" --property=MainPID");
    let ev = vec![Evidence::with_source("systemd", source, "systemd reports this unit main process", Confidence::Exact)];
    assert(crate::domain::relation::evidence_views(ev@) =~= seq![ev@[0]@]);
    graph.add_relation(Relation::new(service.duplicate(), process, RelationKind::Uses, Confidence::Exact, ev));
}

/// The properties of `unit`, from the result of running `systemctl show`.
pub fn properties_from_command(unit: &str, result: Result<CommandOutput, crate::backend::command::CommandError>) -> (r: Result<Metadata, BackendError>)
    ensures
        match r {
            Ok(m) => show_outcome(unit@, command_result_view(result)) == Ok::<Seq<(Seq<char>, Seq<char>)>, BackendErrorView>(m@),
            Err(e) => show_outcome(unit@, command_result_view(result)) == Err::<Seq<(Seq<char>, Seq<char>)>, BackendErrorView>(e@),
        },
{
    match result {
        Err(error) => {
            let mut m = owned("systemctl show failed: ");
            m.append(command_error_text(&error).as_str());
            Err(BackendError::Failed(m))
        },
        Ok(output) => {
            if output.status != 0 {
                let mut m = owned("systemctl show ");
                m.append(unit);
                m.append(" failed: ");
                m.append(trim_text(output.stderr.as_str()).as_str());
                Err(BackendError::Failed(m))
            } else {
                Ok(parse_show_output(output.stdout.as_str()))
            }
        },
    }
}

/// Runs the systemd backend on a graph.
pub struct SystemdBackend<R> {
    runner: R,
}

impl<R> SystemdBackend<R> {
    /// The command runner of this backend.
    pub closed spec fn runner_of(&self) -> R {
        self.runner
    }

    pub fn with_runner(runner: R) -> (r: Self)
        ensures
            r.runner_of() == runner,
    {
        SystemdBackend { runner }
    }
}

impl<R: CommandRunner> SystemdBackend<R> {
    fn show_unit(&self, unit: &str) -> (r: (Result<Metadata, BackendError>, Ghost<Result<CommandOutputView, Seq<char>>>))
        ensures
            self.runner_of().may_reply("systemctl"@, show_args(unit@), r.1@),
            match r.0 {
                Ok(m) => show_outcome(unit@, r.1@) == Ok::<Seq<(Seq<char>, Seq<char>)>, BackendErrorView>(m@),
                Err(e) => show_outcome(unit@, r.1@) == Err::<Seq<(Seq<char>, Seq<char>)>, BackendErrorView>(e@),
            },
    {
        let args = [
            "show",
            unit,
            "--property=Id",
            "--property=LoadState",
            "--property=ActiveState",
            "--property=SubState",
            "--property=FragmentPath",
            "--property=MainPID",
        ];
        proof {
            reveal_strlit("show");
            reveal_strlit("--property=Id");
            reveal_strlit("--property=LoadState");
            reveal_strlit("--property=ActiveState");
            reveal_strlit("--property=SubState");
            reveal_strlit("--property=FragmentPath");
            reveal_strlit("--property=MainPID");
            assert(arg_views(args@) =~= show_args(unit@));
        }
        let result = self.runner.run("systemctl", &args);
        let ghost o = command_result_view(result);
        (properties_from_command(unit, result), Ghost(o))
    }
}

impl<R: CommandRunner> Backend for SystemdBackend<R> {
    open spec fn spec_name(&self) -> Seq<char> {
        "systemd"@
    }

    open spec fn spec_supports(&self, query: QueryView) -> bool {
        query is Service
    }

    fn name(&self) -> (r: &'static str) {
        "systemd"
    }

    open spec fn spec_detected(&self, context: SystemContextView, r: bool) -> bool {
        r == context.has_systemd
    }

    open spec fn spec_investigated(
        &self,
        query: QueryView,
        before: GraphView,
        after: GraphView,
        r: Result<BackendOutputView, BackendErrorView>,
    ) -> bool {
        systemd_outcome(self.runner_of(), query, before, after, r)
    }

    fn detect(&self, context: &SystemContext) -> (r: bool) {
        context.has_systemd
    }

    fn supports(&self, query: &Query) -> (r: bool) {
        match query {
            Query::Service(_) => true,
            _ => false,
        }
    }

    fn investigate(&self, query: &Query, graph: &mut EvidenceGraph) -> (r: Result<BackendOutput, BackendError>) {
        let ghost g0 = graph@;
        let service = match query {
            Query::Service(service) => service,
            _ => {
                assert((graph@, backend_result_view(Err(BackendError::UnsupportedQuery))) == systemd_investigation(g0, query@, Err(Seq::<char>::empty())));
                assert(show_asked(self.runner_of(), query@, Err(Seq::<char>::empty())));
                return Err(BackendError::UnsupportedQuery);
            },
        };
        let unit = normalize_unit_name(service.as_str());
        let (shown, Ghost(o)) = self.show_unit(unit.as_str());
        assert(show_asked(self.runner_of(), query@, o));
        let properties = match shown {
            Ok(p) => p,
            Err(e) => {
                assert((graph@, backend_result_view(Err(e))) == systemd_investigation(g0, query@, o));
                return Err(e);
            },
        };
        if properties.is_empty() {
            let mut m = owned("systemd returned no data for ");
            m.append(unit.as_str());
            let out = BackendOutput::new().with_incomplete(m);
            assert((graph@, backend_result_view(Ok(out))) == systemd_investigation(g0, query@, o));
            return Ok(out);
        }
        let service_id_value = add_service_entity(graph, unit.as_str(), &properties);
        add_fragment_relation(graph, &service_id_value, unit.as_str(), &properties);
        add_main_pid_relation(graph, &service_id_value, unit.as_str(), &properties);
        let out = BackendOutput::new().with_match(service_id_value);
        assert(out@.matches =~= seq![service_id(unit@)]);
        assert((graph@, backend_result_view(Ok(out))) == systemd_investigation(g0, query@, o));
        Ok(out)
    }
}

/// A unit without a main process gets none: where `systemctl show` reports
/// no `MainPID`, one that is not a number, or `0`, investigating the service
/// adds the service entity and its fragment file, and no process entity and
/// no relation to a process.
pub proof fn law_no_main_process_without_main_pid(g: GraphView, service: Seq<char>, o: Result<CommandOutputView, Seq<char>>)
    requires
        show_outcome(unit_name(service), o) is Ok,
        show_outcome(unit_name(service), o)->Ok_0.len() > 0,
        match meta_get(show_outcome(unit_name(service), o)->Ok_0, "MainPID"@) {
            None => true,
            Some(v) => match parse_unsigned(v, 0xffff_ffff) {
                None => true,
                Some(p) => p == 0,
            },
        },
    ensures
        ({
            let unit = unit_name(service);
            let props = show_outcome(unit, o)->Ok_0;
            systemd_investigation(g, QueryView::Service(service), o).0 == add_fragment(
                with_entity(g, service_entity(unit, props)),
                unit,
                props,
            )
        }),
{
}

/// A unit with a main process is used by it: where `systemctl show`
/// reports a `MainPID` that is a number `p` other than `0`, investigating
/// the service leaves the entity of process `p` in the graph and a `Uses`
/// relation from the service to it.
pub proof fn law_main_process_is_used_by_the_service(
    g: GraphView,
    service: Seq<char>,
    o: Result<CommandOutputView, Seq<char>>,
    p: nat,
)
    requires
        show_outcome(unit_name(service), o) is Ok,
        show_outcome(unit_name(service), o)->Ok_0.len() > 0,
        meta_get(show_outcome(unit_name(service), o)->Ok_0, "MainPID"@) matches Some(v) && parse_unsigned(v, 0xffff_ffff)
            == Some(p),
        p != 0,
    ensures
        has_edge(
            systemd_investigation(g, QueryView::Service(service), o).0.relations,
            service_id(unit_name(service)),
            process_id(p),
            RelationKind::Uses,
        ),
        has_entity(systemd_investigation(g, QueryView::Service(service), o).0, process_id(p)),
{
    let unit = unit_name(service);
    let props = show_outcome(unit, o)->Ok_0;
    let g2 = add_fragment(with_entity(g, service_entity(unit, props)), unit, props);
    let e = plain_entity(process_id(p), EntityKind::Process, pid_name(p));
    let ge = with_entity(g2, e);
    lemma_with_entity_grows(g2, e);
    let r = single_relation(
        service_id(unit),
        process_id(p),
        RelationKind::Uses,
        Confidence::Exact,
        plain_evidence(
            "systemd"@,
            "systemctl show "@ + unit + " --property=MainPID"@,
            "systemd reports this unit main process"@,
            Confidence::Exact,
        ),
    );
    lemma_relations_add_edges(ge.relations, r);
    assert(main_pid(props) == Some(p));
    assert(systemd_investigation(g, QueryView::Service(service), o).0 == with_relation(ge, r));
    assert(with_relation(ge, r).entities == ge.entities);
}

} // verus!
