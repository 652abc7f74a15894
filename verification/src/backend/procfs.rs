use vstd::prelude::*;
use crate::backend::host::{FileSystem, FsAnswer, FsQuestion};
use crate::backend::nix::file_id;
use crate::backend::paths::{join_path, join_path_text};
use crate::backend::systemd::{pid_name, process_id};
use crate::backend::{backend_result_view, Backend, BackendError, BackendErrorView, BackendOutput, BackendOutputView, SystemContext, SystemContextView};
use crate::domain::confidence::Confidence;
use crate::domain::entity::{meta_insert, Entity, EntityId, EntityKind, EntityView, Metadata};
use crate::domain::evidence::Evidence;
use crate::domain::graph_laws::{has_edge, lemma_relations_add_edges};
use crate::domain::graph::{plain_entity, plain_evidence, single_relation, with_entity, with_relation, EvidenceGraph, GraphView};
use crate::domain::number::{decimal, decimal_string, parse_unsigned, parse_unsigned_max, push_decimal};
use crate::domain::query::{Query, QueryView};
use crate::domain::relation::{Relation, RelationKind};
use crate::domain::scan::{join, lines, lines_of, starts_with, starts_with_text, trim, trim_text, views};
use crate::domain::text::{chars_of, lossy_text, owned, string_from_range, utf8_lossy};

verus! {

// ---------------------------------------------------------------------------
// Reading procfs files
// ---------------------------------------------------------------------------

/// The pieces of `b` between zero bytes.
pub open spec fn split_at_nul(b: Seq<u8>) -> Seq<Seq<u8>>
    decreases b.len(),
{
    if b.len() == 0 {
        seq![Seq::<u8>::empty()]
    } else {
        let r = split_at_nul(b.drop_last());
        if b.last() == 0 {
            r.push(Seq::<u8>::empty())
        } else {
            r.update(r.len() - 1, r.last().push(b.last()))
        }
    }
}

/// The arguments of a command line, as text.
pub open spec fn cmdline_words(b: Seq<u8>) -> Seq<Seq<char>> {
    split_at_nul(b).filter(|p: Seq<u8>| p.len() > 0).map_values(|p: Seq<u8>| utf8_lossy(p))
}

/// A NUL-separated command line as one line of text, arguments separated by
/// spaces.
pub open spec fn cmdline_text(b: Seq<u8>) -> Seq<char> {
    join(cmdline_words(b), " "@)
}

proof fn lemma_split_at_nul_nonempty(b: Seq<u8>)
    ensures
        split_at_nul(b).len() >= 1,
    decreases b.len(),
{
    if b.len() > 0 {
        lemma_split_at_nul_nonempty(b.drop_last());
    }
}

/// Formats the NUL-separated contents of `/proc/<pid>/cmdline`.
pub fn format_cmdline(bytes: &[u8]) -> (r: String)
    ensures
        r@ == cmdline_text(bytes@),
{
    let ghost pieces = split_at_nul(bytes@);
    let ghost pred = |p: Seq<u8>| p.len() > 0;
    let mut words: Vec<String> = Vec::new();
    let mut cur: Vec<u8> = Vec::new();
    let mut i: usize = 0;
    assert(bytes@.take(0) =~= Seq::<u8>::empty());
    proof {
        reveal_with_fuel(Seq::filter, 1);
    }
    assert(split_at_nul(bytes@.take(0)).drop_last() =~= Seq::<Seq<u8>>::empty());
    while i < bytes.len()
        invariant
            i <= bytes.len(),
            pred == (|p: Seq<u8>| p.len() > 0),
            split_at_nul(bytes@.take(i as int)).len() >= 1,
            cur@ == split_at_nul(bytes@.take(i as int)).last(),
            views(words@) == split_at_nul(bytes@.take(i as int)).drop_last().filter(pred).map_values(|p: Seq<u8>| utf8_lossy(p)),
        decreases bytes.len() - i,
    {
        let ghost before = split_at_nul(bytes@.take(i as int));
        assert(bytes@.take(i + 1).drop_last() =~= bytes@.take(i as int));
        assert(bytes@.take(i + 1).last() == bytes@[i as int]);
        if bytes[i] == 0 {
            proof {
                reveal_with_fuel(Seq::filter, 1);
                assert(split_at_nul(bytes@.take(i + 1)).drop_last() =~= before);
            }
            if cur.len() > 0 {
                let w = lossy_text(cur.as_slice());
                let ghost wv = views(words@);
                words.push(w);
                assert(views(words@) =~= wv.push(utf8_lossy(cur@)));
                assert(before =~= before.drop_last().push(before.last()));
            } else {
                assert(before =~= before.drop_last().push(before.last()));
            }
            cur = Vec::new();
            assert(cur@ =~= Seq::<u8>::empty());
        } else {
            cur.push(bytes[i]);
            assert(split_at_nul(bytes@.take(i + 1)).drop_last() =~= before.drop_last());
        }
        i += 1;
    }
    assert(bytes@.take(bytes.len() as int) =~= bytes@);
    if cur.len() > 0 {
        let w = lossy_text(cur.as_slice());
        let ghost wv = views(words@);
        words.push(w);
        assert(views(words@) =~= wv.push(utf8_lossy(cur@)));
    }
    proof {
        let s = split_at_nul(bytes@);
        reveal_with_fuel(Seq::filter, 1);
        assert(s =~= s.drop_last().push(s.last()));
    }
    assert(views(words@) =~= cmdline_words(bytes@));
    crate::domain::scan::join_strings(&words, " ")
}

/// The parent process named by the first `PPid:` line at or after line `i`
/// that holds a number other than zero.
pub open spec fn ppid_from(ls: Seq<Seq<char>>, i: int) -> Option<nat>
    decreases ls.len() - i,
{
    if i < 0 || i >= ls.len() {
        None
    } else if starts_with(ls[i], "PPid:"@) && (parse_unsigned(trim(ls[i].skip(5)), 0xffff_ffff) matches Some(p) && p != 0) {
        parse_unsigned(trim(ls[i].skip(5)), 0xffff_ffff)
    } else {
        ppid_from(ls, i + 1)
    }
}

/// The parent process named in the text of `/proc/<pid>/status`.
pub open spec fn parent_pid_in(status: Seq<char>) -> Option<nat> {
    ppid_from(lines(status), 0)
}

/// Reads the parent process from the text of `/proc/<pid>/status`.
pub fn parse_parent_pid(status: &str) -> (r: Option<u32>)
    ensures
        match r {
            Some(p) => parent_pid_in(status@) == Some(p as nat),
            None => parent_pid_in(status@) is None,
        },
{
    let ls = lines_of(status);
    let ghost lv = views(ls@);
    let mut i: usize = 0;
    while i < ls.len()
        invariant
            i <= ls.len(),
            lv == views(ls@),
            lv == lines(status@),
            parent_pid_in(status@) == ppid_from(lv, i as int),
        decreases ls.len() - i,
    {
        assert(lv[i as int] == ls@[i as int]@);
        let line = ls[i].as_str();
        if starts_with_text(line, "PPid:") {
            proof {
                reveal_strlit("PPid:");
            }
            let v = chars_of(line);
            let rest = string_from_range(&v, 5, v.len());
            assert(rest@ =~= lv[i as int].skip(5));
            let value = trim_text(rest.as_str());
            if let Some(p) = parse_unsigned_max(value.as_str(), 0xffff_ffff) {
                if p != 0 {
                    return Some(p as u32);
                }
            }
        }
        i += 1;
    }
    None
}

/// The process number in a process entity identifier `process:<pid>`.
pub open spec fn pid_of_id(id: Seq<char>) -> Option<nat> {
    if starts_with(id, "process:"@) {
        parse_unsigned(id.skip(8), 0xffff_ffff)
    } else {
        None
    }
}

/// Reads the process number from a process entity identifier.
pub fn parse_process_id(entity_id: &EntityId) -> (r: Option<u32>)
    ensures
        match r {
            Some(p) => pid_of_id(entity_id@) == Some(p as nat),
            None => pid_of_id(entity_id@) is None,
        },
{
    let s = entity_id.as_str();
    if !starts_with_text(s, "process:") {
        return None;
    }
    proof {
        reveal_strlit("process:");
    }
    let v = chars_of(s);
    let rest = string_from_range(&v, 8, v.len());
    assert(rest@ =~= entity_id@.skip(8));
    match parse_unsigned_max(rest.as_str(), 0xffff_ffff) {
        Some(p) => Some(p as u32),
        None => None,
    }
}


// ---------------------------------------------------------------------------
// What the backend adds to the graph
// ---------------------------------------------------------------------------

/// What was read from a process directory for its entity: the text of
/// `comm` and the bytes of `cmdline`, each where it could be read, and the
/// target of the `cwd` link or the text of the error.
pub struct ProcessFacts {
    pub comm: Option<Seq<char>>,
    pub cmdline: Option<Seq<u8>>,
    pub cwd: Result<Seq<char>, Seq<char>>,
}

/// What was read for investigating one process: whether its directory
/// exists, its own facts, the text of its `status`, the facts of its parent,
/// and the target of its `exe` link or the text of the error.
pub struct PidFacts {
    pub found: bool,
    pub own: ProcessFacts,
    pub status: Option<Seq<char>>,
    pub parent: ProcessFacts,
    pub exe: Result<Seq<char>, Seq<char>>,
}

/// The trimmed command name, where there is one.
pub open spec fn comm_of(f: ProcessFacts) -> Seq<char> {
    match f.comm {
        Some(c) => trim(c),
        None => Seq::empty(),
    }
}

/// The formatted command line, where there is one.
pub open spec fn cmdline_of(f: ProcessFacts) -> Seq<char> {
    match f.cmdline {
        Some(b) => cmdline_text(b),
        None => Seq::empty(),
    }
}

/// The entity of process `pid`, from what was read about it.
pub open spec fn process_entity(pid: nat, f: ProcessFacts) -> EntityView {
    let comm = comm_of(f);
    let m1 = if comm.len() > 0 { meta_insert(Seq::empty(), "comm"@, comm) } else { Seq::empty() };
    let cmd = cmdline_of(f);
    let m2 = if cmd.len() > 0 { meta_insert(m1, "cmdline"@, cmd) } else { m1 };
    let m3 = match f.cwd {
        Ok(d) => meta_insert(m2, "cwd"@, d),
        Err(_) => m2,
    };
    EntityView {
        id: process_id(pid),
        kind: EntityKind::Process,
        name: if comm.len() > 0 { comm + " ("@ + decimal(pid) + ")"@ } else { pid_name(pid) },
        metadata: m3,
    }
}

/// The parent process named in what was read, where there is one.
pub open spec fn parent_of(f: PidFacts) -> Option<nat> {
    match f.status {
        Some(st) => parent_pid_in(st),
        None => None,
    }
}

/// What the procfs backend does with graph `g` for process `pid`, given
/// what was read about it.
pub open spec fn procfs_pid(g: GraphView, pid: nat, include_match: bool, f: PidFacts) -> (GraphView, Result<BackendOutputView, BackendErrorView>) {
    if !f.found {
        (g, Ok(BackendOutputView { matches: Seq::empty(), incomplete: seq!["procfs could not find PID "@ + decimal(pid)] }))
    } else {
        let g1 = with_entity(g, process_entity(pid, f.own));
        let matches = if include_match { seq![process_id(pid)] } else { Seq::empty() };
        let g2 = match parent_of(f) {
            Some(pp) => with_relation(
                with_entity(g1, process_entity(pp, f.parent)),
                single_relation(
                    process_id(pid),
                    process_id(pp),
                    RelationKind::StartedBy,
                    Confidence::Exact,
                    plain_evidence("procfs"@, "/proc/"@ + decimal(pid) + "/status"@, "Process status reports this parent PID"@, Confidence::Exact),
                ),
            ),
            None => g1,
        };
        match f.exe {
            Ok(exe) => if exe.len() == 0 {
                (g2, Err(BackendErrorView::Failed("empty procfs executable path"@)))
            } else {
                (
                    with_relation(
                        with_entity(g2, plain_entity(file_id(exe), EntityKind::Executable, exe)),
                        single_relation(
                            process_id(pid),
                            file_id(exe),
                            RelationKind::Uses,
                            Confidence::Exact,
                            plain_evidence(
                                "procfs"@,
                                "/proc/"@ + decimal(pid) + "/exe"@,
                                "Process executable symlink points to this path"@,
                                Confidence::Exact,
                            ),
                        ),
                    ),
                    Ok(BackendOutputView { matches, incomplete: Seq::empty() }),
                )
            },
            Err(e) => (g2, Ok(BackendOutputView { matches, incomplete: seq!["procfs could not read executable for PID "@ + decimal(pid) + ": "@ + e] })),
        }
    }
}

/// The process numbers of the process entities, in identifier order.
pub open spec fn pids_of(g: GraphView) -> Seq<nat> {
    g.entities.filter(|e: EntityView| e.kind == EntityKind::Process && pid_of_id(e.id) is Some).map_values(
        |e: EntityView| pid_of_id(e.id)->0,
    )
}

/// The graph and the gaps after investigating each of `pids` in turn without
/// adding matches, given what was read for each; the first error stops.
pub open spec fn enrich_fold(g: GraphView, pids: Seq<nat>, facts: Seq<PidFacts>) -> (GraphView, Result<Seq<Seq<char>>, BackendErrorView>)
    decreases pids.len(),
{
    if pids.len() == 0 || facts.len() == 0 {
        (g, Ok(Seq::empty()))
    } else {
        let (g1, r1) = enrich_fold(g, pids.drop_last(), facts.drop_last());
        match r1 {
            Err(e) => (g1, Err(e)),
            Ok(inc) => {
                let (g2, r2) = procfs_pid(g1, pids.last(), false, facts.last());
                match r2 {
                    Ok(o) => (g2, Ok(inc + o.incomplete)),
                    Err(e) => (g2, Err(e)),
                }
            },
        }
    }
}

/// The directory of process `pid` under `root`.
pub open spec fn process_dir(root: Seq<char>, pid: nat) -> Seq<char> {
    join_path(root, decimal(pid))
}

/// Whether `f` holds answers the file system may give when the files of
/// the process directory `dir` are read: `comm`, `cmdline` and the `cwd`
/// link.
pub open spec fn process_read<F: FileSystem>(fs: F, dir: Seq<char>, f: ProcessFacts) -> bool {
    &&& fs.may_answer(FsQuestion::ReadText(join_path(dir, "comm"@)), FsAnswer::Text(f.comm))
    &&& fs.may_answer(FsQuestion::ReadBytes(join_path(dir, "cmdline"@)), FsAnswer::Bytes(f.cmdline))
    &&& fs.may_answer(FsQuestion::ReadLink(join_path(dir, "cwd"@)), FsAnswer::Path(f.cwd))
}

/// Whether `f` holds answers the file system may give to what
/// investigating process `pid` under `root` asks: whether its directory
/// exists and, where it does, its own files, its `status`, the files of the
/// parent it names, and its `exe` link.
pub open spec fn pid_read<F: FileSystem>(fs: F, root: Seq<char>, pid: nat, f: PidFacts) -> bool {
    let dir = process_dir(root, pid);
    &&& fs.may_answer(FsQuestion::Exists(dir), FsAnswer::Flag(f.found))
    &&& f.found ==> {
        &&& process_read(fs, dir, f.own)
        &&& fs.may_answer(FsQuestion::ReadText(join_path(dir, "status"@)), FsAnswer::Text(f.status))
        &&& (parent_of(f) matches Some(pp) ==> process_read(fs, process_dir(root, pp), f.parent))
        &&& fs.may_answer(FsQuestion::ReadLink(join_path(dir, "exe"@)), FsAnswer::Path(f.exe))
    }
}

fn meta_key(key: &str) -> (r: String)
    ensures
        r@ == key@,
{
    owned(key)
}

fn add_process_entity<F: FileSystem>(fs: &F, graph: &mut EvidenceGraph, pid: u32, dir: &str) -> (r: (EntityId, Ghost<ProcessFacts>))
    ensures
        process_read(*fs, dir@, r.1@),
        r.0@ == process_id(pid as nat),
        final(graph)@ == with_entity(old(graph)@, process_entity(pid as nat, r.1@)),
{
    let mut id_text = owned("process:");
    push_decimal(&mut id_text, pid as u64);
    let id = EntityId::from_string(id_text);
    let mut name = owned("PID ");
    push_decimal(&mut name, pid as u64);
    let mut metadata = Metadata::new();
    let comm_read = fs.read_to_string(join_path_text(dir, "comm").as_str());
    let ghost comm_v: Option<Seq<char>> = match &comm_read { Some(c) => Some(c@), None => None };
    if let Some(comm) = comm_read {
        let comm = trim_text(comm.as_str());
        if comm.as_str().unicode_len() > 0 {
            metadata.insert(meta_key("comm"), comm.clone());
            let mut n = comm;
            n.append(" (");
            push_decimal(&mut n, pid as u64);
            n.append(")");
            name = n;
        }
    }
    let cmd_read = fs.read(join_path_text(dir, "cmdline").as_str());
    let ghost cmd_v: Option<Seq<u8>> = match &cmd_read { Some(c) => Some(c@), None => None };
    if let Some(bytes) = cmd_read {
        let cmdline = format_cmdline(bytes.as_slice());
        if cmdline.as_str().unicode_len() > 0 {
            metadata.insert(meta_key("cmdline"), cmdline);
        }
    }
    let cwd_read = fs.read_link(join_path_text(dir, "cwd").as_str());
    let ghost cwd_v: Result<Seq<char>, Seq<char>> = match &cwd_read { Ok(c) => Ok(c@), Err(e) => Err(e@) };
    if let Ok(cwd) = cwd_read {
        metadata.insert(meta_key("cwd"), cwd);
    }
    let ghost facts = ProcessFacts { comm: comm_v, cmdline: cmd_v, cwd: cwd_v };
    let entity = Entity { id, kind: EntityKind::Process, name, metadata };
    assert(entity@ == process_entity(pid as nat, facts));
    let id = graph.add_entity(entity);
    (id, Ghost(facts))
}

fn single_evidence(ev: Evidence) -> (r: Vec<Evidence>)
    ensures
        crate::domain::relation::evidence_views(r@) == seq![ev@],
{
    let r = vec![ev];
    assert(crate::domain::relation::evidence_views(r@) =~= seq![ev@]);
    r
}

/// Runs the procfs backend on a graph, reading process directories under a
/// root through a file system.
pub struct ProcfsBackend<F> {
    proc_root: String,
    fs: F,
}

impl<F> ProcfsBackend<F> {
    /// The directory whose subdirectories are processes.
    pub closed spec fn root_of(&self) -> Seq<char> {
        self.proc_root@
    }

    /// The file system this backend reads.
    pub closed spec fn fs_of(&self) -> F {
        self.fs
    }

    /// A backend that reads `/proc`.
    pub fn new(fs: F) -> (r: Self)
        ensures
            r.root_of() == "/proc"@,
            r.fs_of() == fs,
    {
        ProcfsBackend { proc_root: owned("/proc"), fs }
    }

    /// A backend that reads the process directories under `proc_root`.
    pub fn with_proc_root(fs: F, proc_root: &str) -> (r: Self)
        ensures
            r.root_of() == proc_root@,
            r.fs_of() == fs,
    {
        ProcfsBackend { proc_root: owned(proc_root), fs }
    }
}

impl<F: FileSystem> ProcfsBackend<F> {
    fn investigate_pid(&self, pid: u32, graph: &mut EvidenceGraph, include_match: bool) -> (r: (Result<BackendOutput, BackendError>, Ghost<PidFacts>))
        ensures
            pid_read(self.fs_of(), self.root_of(), pid as nat, r.1@),
            (final(graph)@, backend_result_view(r.0)) == procfs_pid(old(graph)@, pid as nat, include_match, r.1@),
    {
        let ghost g0 = graph@;
        let process_dir = join_path_text(self.proc_root.as_str(), decimal_string(pid as u64).as_str());
        let ghost empty_facts = ProcessFacts { comm: None, cmdline: None, cwd: Err(Seq::empty()) };
        if !self.fs.path_exists(process_dir.as_str()) {
            let mut m = owned("procfs could not find PID ");
            push_decimal(&mut m, pid as u64);
            let out = BackendOutput::new().with_incomplete(m);
            let ghost facts = PidFacts { found: false, own: empty_facts, status: None, parent: empty_facts, exe: Err(Seq::empty()) };
            assert((graph@, backend_result_view(Ok(out))) == procfs_pid(g0, pid as nat, include_match, facts));
            return (Ok(out), Ghost(facts));
        }
        let (process, Ghost(own)) = add_process_entity(&self.fs, graph, pid, process_dir.as_str());
        let ghost g1 = graph@;
        let mut output = BackendOutput::new();
        if include_match {
            output = output.with_match(process.duplicate());
        }
        let status_read = self.fs.read_to_string(join_path_text(process_dir.as_str(), "status").as_str());
        let ghost status_v: Option<Seq<char>> = match &status_read { Some(c) => Some(c@), None => None };
        let parent = match status_read {
            Some(st) => parse_parent_pid(st.as_str()),
            None => None,
        };
        let ghost mut parent_facts = empty_facts;
        if let Some(parent_pid) = parent {
            let parent_dir = join_path_text(self.proc_root.as_str(), decimal_string(parent_pid as u64).as_str());
            let (parent_id, Ghost(pf)) = add_process_entity(&self.fs, graph, parent_pid, parent_dir.as_str());
            proof {
                parent_facts = pf;
            }
            let mut source = owned("/proc/");
            push_decimal(&mut source, pid as u64);
            source.append("/status");
            let ev = single_evidence(Evidence::with_source("procfs", source, "Process status reports this parent PID", Confidence::Exact));
            graph.add_relation(Relation::new(process.duplicate(), parent_id, RelationKind::StartedBy, Confidence::Exact, ev));
        }
        let ghost g2 = graph@;
        let exe_read = self.fs.read_link(join_path_text(process_dir.as_str(), "exe").as_str());
        let ghost exe_v: Result<Seq<char>, Seq<char>> = match &exe_read { Ok(c) => Ok(c@), Err(e) => Err(e@) };
        let ghost facts = PidFacts { found: true, own, status: status_v, parent: parent_facts, exe: exe_v };
        match exe_read {
            Ok(exe_path) => {
                if exe_path.as_str().unicode_len() == 0 {
                    let err = BackendError::Failed(owned("empty procfs executable path"));
                    assert((graph@, backend_result_view(Err(err))) == procfs_pid(g0, pid as nat, include_match, facts));
                    return (Err(err), Ghost(facts));
                }
                let mut fid = owned("file:");
                fid.append(exe_path.as_str());
                let exe_id = graph.add_entity(Entity::new(EntityId::from_string(fid), EntityKind::Executable, exe_path.as_str()));
                let mut source = owned("/proc/");
                push_decimal(&mut source, pid as u64);
                source.append("/exe");
                let ev = single_evidence(Evidence::with_source("procfs", source, "Process executable symlink points to this path", Confidence::Exact));
                graph.add_relation(Relation::new(process, exe_id, RelationKind::Uses, Confidence::Exact, ev));
            },
            Err(error) => {
                let mut m = owned("procfs could not read executable for PID ");
                push_decimal(&mut m, pid as u64);
                m.append(": ");
                m.append(error.as_str());
                output = output.with_incomplete(m);
            },
        }
        assert(output@.matches =~= (if include_match { seq![process_id(pid as nat)] } else { Seq::<Seq<char>>::empty() }));
        assert((graph@, backend_result_view(Ok(output))) == procfs_pid(g0, pid as nat, include_match, facts));
        (Ok(output), Ghost(facts))
    }
}


/// The process numbers of the process entities of the graph.
pub fn process_pids(graph: &EvidenceGraph) -> (r: Vec<u32>)
    ensures
        r@.map_values(|p: u32| p as nat) == pids_of(graph@),
{
    let ghost pred = |e: EntityView| e.kind == EntityKind::Process && pid_of_id(e.id) is Some;
    let n = graph.entity_count();
    let mut r: Vec<u32> = Vec::new();
    let mut i: usize = 0;
    while i < n
        invariant
            n == graph@.entities.len(),
            i <= n,
            pred == (|e: EntityView| e.kind == EntityKind::Process && pid_of_id(e.id) is Some),
            r@.map_values(|p: u32| p as nat) == graph@.entities.take(i as int).filter(pred).map_values(
                |e: EntityView| pid_of_id(e.id)->0,
            ),
        decreases n - i,
    {
        let e = graph.entity_at(i);
        proof {
            reveal_with_fuel(Seq::filter, 1);
            assert(graph@.entities.take(i + 1).drop_last() =~= graph@.entities.take(i as int));
        }
        let ghost before = graph@.entities.take(i as int).filter(pred);
        let parsed = if e.kind == EntityKind::Process {
            parse_process_id(&e.id)
        } else {
            None
        };
        if let Some(pid) = parsed {
            let ghost rv = r@.map_values(|p: u32| p as nat);
            r.push(pid);
            assert(r@.map_values(|p: u32| p as nat) =~= rv.push(pid as nat));
            assert(graph@.entities.take(i + 1).filter(pred) == before.push(e@));
            assert(before.push(e@).map_values(|e: EntityView| pid_of_id(e.id)->0) =~= before.map_values(
                |e: EntityView| pid_of_id(e.id)->0,
            ).push(pid_of_id(e@.id)->0));
        } else {
            assert(graph@.entities.take(i + 1).filter(pred) == before);
        }
        i += 1;
    }
    assert(graph@.entities.take(n as int) =~= graph@.entities);
    r
}

impl<F: FileSystem> ProcfsBackend<F> {
    fn enrich_existing_processes(&self, graph: &mut EvidenceGraph) -> (r: (Result<BackendOutput, BackendError>, Ghost<Seq<PidFacts>>))
        ensures
            forall|k: int| 0 <= k < r.1@.len() ==> pid_read(self.fs_of(), self.root_of(), pids_of(old(graph)@)[k], #[trigger] r.1@[k]),
            r.1@.len() <= pids_of(old(graph)@).len(),
            r.0 is Ok ==> r.1@.len() == pids_of(old(graph)@).len(),
            final(graph)@ == enrich_fold(old(graph)@, pids_of(old(graph)@).take(r.1@.len() as int), r.1@).0,
            match r.0 {
                Ok(o) => o@.matches.len() == 0 && enrich_fold(old(graph)@, pids_of(old(graph)@).take(r.1@.len() as int), r.1@).1
                    == Ok::<Seq<Seq<char>>, BackendErrorView>(o@.incomplete),
                Err(e) => enrich_fold(old(graph)@, pids_of(old(graph)@).take(r.1@.len() as int), r.1@).1
                    == Err::<Seq<Seq<char>>, BackendErrorView>(e@),
            },
    {
        let ghost g0 = graph@;
        let pids = process_pids(graph);
        let ghost pv = pids@.map_values(|p: u32| p as nat);
        let mut output = BackendOutput::new();
        let ghost mut facts: Seq<PidFacts> = Seq::empty();
        let mut i: usize = 0;
        while i < pids.len()
            invariant
                i <= pids.len(),
                pv == pids@.map_values(|p: u32| p as nat),
                pv == pids_of(g0),
                g0 == old(graph)@,
                facts.len() == i,
                forall|k: int| 0 <= k < facts.len() ==> pid_read(self.fs_of(), self.root_of(), pv[k], #[trigger] facts[k]),
                (graph@, Ok::<Seq<Seq<char>>, BackendErrorView>(output@.incomplete)) == enrich_fold(g0, pv.take(i as int), facts),
                output@.matches.len() == 0,
            decreases pids.len() - i,
        {
            let (res, Ghost(f)) = self.investigate_pid(pids[i], graph, false);
            let ghost facts_before = facts;
            proof {
                facts = facts.push(f);
                assert(pv[i as int] == pids@[i as int] as nat);
                assert forall|k: int| 0 <= k < facts.len() implies pid_read(self.fs_of(), self.root_of(), pv[k], #[trigger] facts[k]) by {
                    if k < i {
                        assert(facts[k] == facts_before[k]);
                    }
                }
                assert(pv.take(i + 1).drop_last() =~= pv.take(i as int));
                assert(facts.drop_last() =~= facts_before);
                assert(pv.take(i + 1).last() == pids@[i as int] as nat);
            }
            match res {
                Ok(o) => {
                    let mut j: usize = 0;
                    let ghost inc_before = output@.incomplete;
                    while j < o.incomplete.len()
                        invariant
                            j <= o.incomplete.len(),
                            output@.matches.len() == 0,
                            output@.incomplete == inc_before + views(o.incomplete@).take(j as int),
                        decreases o.incomplete.len() - j,
                    {
                        output = output.with_incomplete(o.incomplete[j].clone());
                        assert(views(o.incomplete@).take(j + 1) =~= views(o.incomplete@).take(j as int).push(o.incomplete@[j as int]@));
                        assert(inc_before + views(o.incomplete@).take(j + 1) =~= (inc_before + views(o.incomplete@).take(j as int)).push(o.incomplete@[j as int]@));
                        j += 1;
                    }
                    assert(views(o.incomplete@).take(o.incomplete.len() as int) =~= views(o.incomplete@));
                },
                Err(e) => {
                    assert(pv.len() == pids.len());
                    assert(pv.take(i + 1) == pids_of(g0).take(facts.len() as int));
                    assert(enrich_fold(g0, pv.take(i + 1), facts) == (graph@, Err::<Seq<Seq<char>>, BackendErrorView>(e@)));
                    return (Err(e), Ghost(facts));
                },
            }
            i += 1;
        }
        assert(pv.take(pids.len() as int) =~= pv);
        (Ok(output), Ghost(facts))
    }
}

/// Whether the graph `g1` and result `r` are what investigating process
/// `pid` in `g0` gives, for the facts read.
pub open spec fn pid_matches(g0: GraphView, g1: GraphView, r: Result<BackendOutputView, BackendErrorView>, pid: nat, f: PidFacts) -> bool {
    (g1, r) == procfs_pid(g0, pid, true, f)
}

/// Whether the graph `g1` and result `r` are what enriching `g0` gives, for
/// the facts read.
pub open spec fn final_matches(g0: GraphView, g1: GraphView, r: Result<BackendOutputView, BackendErrorView>, facts: Seq<PidFacts>) -> bool {
    facts.len() <= pids_of(g0).len() && (r is Ok ==> facts.len() == pids_of(g0).len())
        && g1 == enrich_fold(g0, pids_of(g0).take(facts.len() as int), facts).0
        && match r {
            Ok(o) => o.matches.len() == 0 && enrich_fold(g0, pids_of(g0).take(facts.len() as int), facts).1
                == Ok::<Seq<Seq<char>>, BackendErrorView>(o.incomplete),
            Err(e) => enrich_fold(g0, pids_of(g0).take(facts.len() as int), facts).1
                == Err::<Seq<Seq<char>>, BackendErrorView>(e),
        }
}

/// Whether the graph `g1` and result `r` are what the procfs backend gives
/// for `query` on `g0`, for the facts read: for a process query, what
/// investigating that process gives; for any other query, what enriching
/// the process entities already in the graph gives.
pub open spec fn procfs_outcome(g0: GraphView, g1: GraphView, r: Result<BackendOutputView, BackendErrorView>, query: QueryView, facts: Seq<PidFacts>) -> bool {
    match query {
        QueryView::Process(pid) => facts.len() == 1 && pid_matches(g0, g1, r, pid as nat, facts[0]),
        _ => final_matches(g0, g1, r, facts),
    }
}

/// Whether the facts are answers the file system may give to what the
/// procfs backend asks for `query` on `g0`, processes under `root`.
pub open spec fn procfs_read<F: FileSystem>(fs: F, root: Seq<char>, g0: GraphView, query: QueryView, facts: Seq<PidFacts>) -> bool {
    match query {
        QueryView::Process(pid) => facts.len() == 1 && pid_read(fs, root, pid as nat, facts[0]),
        _ => forall|k: int| 0 <= k < facts.len() && k < pids_of(g0).len() ==> pid_read(fs, root, pids_of(g0)[k], #[trigger] facts[k]),
    }
}

/// Whether turning `before` into `after` with result `r` is what the
/// procfs backend does for `q`, reading the processes under `root` through
/// `fs`, for some answers the file system may give.
pub open spec fn procfs_investigated<F: FileSystem>(
    fs: F,
    root: Seq<char>,
    q: QueryView,
    before: GraphView,
    after: GraphView,
    r: Result<BackendOutputView, BackendErrorView>,
) -> bool {
    exists|facts: Seq<PidFacts>| #[trigger] procfs_read(fs, root, before, q, facts) && procfs_outcome(before, after, r, q, facts)
}

impl<F: FileSystem> Backend for ProcfsBackend<F> {
    open spec fn spec_name(&self) -> Seq<char> {
        "procfs"@
    }

    open spec fn spec_supports(&self, query: QueryView) -> bool {
        true
    }

    fn name(&self) -> (r: &'static str) {
        "procfs"
    }

    open spec fn spec_detected(&self, context: SystemContextView, r: bool) -> bool {
        self.fs_of().may_answer(FsQuestion::Exists(self.root_of()), FsAnswer::Flag(r))
    }

    open spec fn spec_investigated(
        &self,
        query: QueryView,
        before: GraphView,
        after: GraphView,
        r: Result<BackendOutputView, BackendErrorView>,
    ) -> bool {
        procfs_investigated(self.fs_of(), self.root_of(), query, before, after, r)
    }

    /// Whether the process root exists.
    fn detect(&self, _context: &SystemContext) -> (r: bool) {
        self.fs.path_exists(self.proc_root.as_str())
    }

    fn supports(&self, _query: &Query) -> (r: bool) {
        true
    }

    fn investigate(&self, query: &Query, graph: &mut EvidenceGraph) -> (r: Result<BackendOutput, BackendError>)
    {
        let ghost g0 = graph@;
        match query {
            Query::Process(pid) => {
                let (r, Ghost(f)) = self.investigate_pid(*pid, graph, true);
                assert(query@ == QueryView::Process(*pid));
                assert((graph@, backend_result_view(r)) == procfs_pid(g0, *pid as nat, true, f));
                assert(procfs_outcome(g0, graph@, backend_result_view(r), query@, seq![f]));
                assert(procfs_read(self.fs_of(), self.root_of(), g0, query@, seq![f]));
                r
            },
            _ => {
                let (r, Ghost(facts)) = self.enrich_existing_processes(graph);
                assert(procfs_outcome(g0, graph@, backend_result_view(r), query@, facts));
                assert(procfs_read(self.fs_of(), self.root_of(), g0, query@, facts));
                r
            },
        }
    }
}

/// A process is started by its parent: investigating process `pid` whose
/// status names parent `pp` records a relation from the process to its
/// parent, of kind `StartedBy`, and none from the parent back to the
/// process that the graph did not already hold.
pub proof fn law_process_started_by_its_parent(g: GraphView, pid: nat, include_match: bool, f: PidFacts, pp: nat)
    requires
        f.found,
        f.status matches Some(st) && parent_pid_in(st) == Some(pp),
    ensures
        has_edge(procfs_pid(g, pid, include_match, f).0.relations, process_id(pid), process_id(pp), RelationKind::StartedBy),
        pid != pp && !has_edge(g.relations, process_id(pp), process_id(pid), RelationKind::StartedBy) ==> !has_edge(
            procfs_pid(g, pid, include_match, f).0.relations,
            process_id(pp),
            process_id(pid),
            RelationKind::StartedBy,
        ),
{
    let g1 = with_entity(g, process_entity(pid, f.own));
    let ga = with_entity(g1, process_entity(pp, f.parent));
    let r = single_relation(
        process_id(pid),
        process_id(pp),
        RelationKind::StartedBy,
        Confidence::Exact,
        plain_evidence("procfs"@, "/proc/"@ + decimal(pid) + "/status"@, "Process status reports this parent PID"@, Confidence::Exact),
    );
    let g2 = with_relation(ga, r);
    lemma_relations_add_edges(ga.relations, r);
    assert(ga.relations == g.relations);
    assert(has_edge(g2.relations, process_id(pid), process_id(pp), RelationKind::StartedBy));
    if pid != pp {
        assert(process_id(pp) != process_id(pid)) by {
            crate::domain::number::lemma_decimal_reads_back(pid);
            crate::domain::number::lemma_decimal_reads_back(pp);
            reveal_strlit("process:");
            if process_id(pp) == process_id(pid) {
                assert(decimal(pp) =~= process_id(pp).skip(8));
                assert(decimal(pid) =~= process_id(pid).skip(8));
            }
        }
    }
    let after = procfs_pid(g, pid, include_match, f).0;
    match f.exe {
        Ok(exe) => if exe.len() > 0 {
            let gx = with_entity(g2, plain_entity(file_id(exe), EntityKind::Executable, exe));
            let rx = single_relation(
                process_id(pid),
                file_id(exe),
                RelationKind::Uses,
                Confidence::Exact,
                plain_evidence(
                    "procfs"@,
                    "/proc/"@ + decimal(pid) + "/exe"@,
                    "Process executable symlink points to this path"@,
                    Confidence::Exact,
                ),
            );
            lemma_relations_add_edges(gx.relations, rx);
            assert(after == with_relation(gx, rx));
        },
        Err(_) => {},
    }
}

} // verus!
