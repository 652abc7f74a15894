use syswhy::backend::command::{CommandError, CommandOutput, CommandRunner};
use syswhy::backend::filesystem::FileSystemBackend;
use syswhy::backend::host::FileSystem;
use syswhy::backend::nix::{containing_store_path, parse_roots, NixBackend};
use syswhy::backend::procfs::{format_cmdline, parse_parent_pid, ProcfsBackend};
use syswhy::backend::systemd::{normalize_unit_name, parse_show_output, SystemdBackend};
use syswhy::backend::{Backend, BackendError};
use syswhy::{Confidence, Entity, EntityId, EntityKind, Evidence, EvidenceGraph, Query, Relation, RelationKind};

#[derive(Debug, Clone)]
struct FakeCommandRunner {
    output: Result<CommandOutput, CommandError>,
}

impl FakeCommandRunner {
    fn stdout(stdout: &str) -> Self {
        Self { output: Ok(CommandOutput { status: 0, stdout: stdout.to_string(), stderr: String::new() }) }
    }
}

impl CommandRunner for FakeCommandRunner {
    fn run(&self, _program: &str, _args: &[&str]) -> Result<CommandOutput, CommandError> {
        self.output.clone()
    }
}

/// A file system held in memory: directories, files with their contents
/// and whether they are executable, and symbolic links.
#[derive(Default)]
struct FakeFs {
    dirs: Vec<String>,
    files: Vec<(String, Vec<u8>, bool)>,
    links: Vec<(String, String)>,
}

impl FakeFs {
    fn dir(mut self, path: &str) -> Self {
        self.dirs.push(path.to_string());
        self
    }

    fn file(mut self, path: &str, contents: &[u8], executable: bool) -> Self {
        self.files.push((path.to_string(), contents.to_vec(), executable));
        self
    }

    fn link(mut self, path: &str, target: &str) -> Self {
        self.links.push((path.to_string(), target.to_string()));
        self
    }

    fn resolve(&self, path: &str) -> String {
        match self.links.iter().find(|(p, _)| p == path) {
            Some((_, target)) => self.resolve(target),
            None => path.to_string(),
        }
    }

    fn find_file(&self, path: &str) -> Option<&(String, Vec<u8>, bool)> {
        let resolved = self.resolve(path);
        self.files.iter().find(|(p, _, _)| *p == resolved)
    }
}

impl FileSystem for FakeFs {
    fn path_exists(&self, path: &str) -> bool {
        let resolved = self.resolve(path);
        self.dirs.iter().any(|d| *d == resolved) || self.files.iter().any(|(p, _, _)| *p == resolved)
    }

    fn is_file(&self, path: &str) -> bool {
        self.find_file(path).is_some()
    }

    fn is_executable(&self, path: &str) -> bool {
        self.find_file(path).map(|(_, _, x)| *x).unwrap_or(false)
    }

    fn canonicalize(&self, path: &str) -> Result<String, String> {
        if self.path_exists(path) {
            Ok(self.resolve(path))
        } else {
            Err("No such file or directory (os error 2)".to_string())
        }
    }

    fn read_to_string(&self, path: &str) -> Option<String> {
        self.find_file(path).map(|(_, c, _)| String::from_utf8_lossy(c).to_string())
    }

    fn read(&self, path: &str) -> Option<Vec<u8>> {
        self.find_file(path).map(|(_, c, _)| c.clone())
    }

    fn read_link(&self, path: &str) -> Result<String, String> {
        match self.links.iter().find(|(p, _)| p == path) {
            Some((_, target)) => Ok(target.clone()),
            None => Err("Invalid argument (os error 22)".to_string()),
        }
    }
}

// ---------------------------------------------------------------------------
// nix
// ---------------------------------------------------------------------------

#[test]
fn detects_containing_store_path() {
    assert_eq!(
        containing_store_path("/nix/store/abc123-firefox-140.0/bin/firefox").unwrap(),
        "/nix/store/abc123-firefox-140.0"
    );
}

#[test]
fn ignores_non_store_paths() {
    assert!(containing_store_path("/usr/bin/bash").is_none());
}

#[test]
fn adds_belongs_to_relation_for_store_path_entities() {
    let mut graph = EvidenceGraph::new();
    graph.add_entity(Entity::new(
        EntityId::new("file:/nix/store/abc123-firefox-140.0/bin/firefox"),
        EntityKind::Executable,
        "/nix/store/abc123-firefox-140.0/bin/firefox",
    ));

    let output = NixBackend::with_runner(FakeCommandRunner::stdout(""))
        .investigate(&Query::Auto("firefox".to_string()), &mut graph)
        .unwrap();

    assert!(output.incomplete.is_empty());
    assert_eq!(graph.entity_count(), 2);
    assert_eq!(graph.relation_count(), 1);
    assert_eq!(graph.relations().next().unwrap().kind, RelationKind::BelongsTo);
}

#[test]
fn prefers_canonical_target_over_resolving_symlink() {
    let mut graph = EvidenceGraph::new();
    let link_id = graph.add_entity(Entity::new(
        EntityId::new("file:/nix/store/abc123-bash/bin/sh"),
        EntityKind::Executable,
        "/nix/store/abc123-bash/bin/sh",
    ));
    let target_id = graph.add_entity(Entity::new(
        EntityId::new("file:/nix/store/abc123-bash/bin/bash"),
        EntityKind::File,
        "/nix/store/abc123-bash/bin/bash",
    ));
    graph.add_relation(Relation::new(
        link_id,
        target_id.clone(),
        RelationKind::ResolvesTo,
        Confidence::Exact,
        vec![Evidence::new(
            "filesystem",
            "std::fs::canonicalize",
            "Path resolves to this canonical target",
            Confidence::Exact,
        )],
    ));

    NixBackend::with_runner(FakeCommandRunner::stdout(""))
        .investigate(&Query::Auto("sh".to_string()), &mut graph)
        .unwrap();

    let belongs_to = graph.relations().filter(|relation| relation.kind == RelationKind::BelongsTo).collect::<Vec<_>>();
    assert_eq!(belongs_to.len(), 1);
    assert_eq!(belongs_to[0].from, target_id);
}

#[test]
fn parses_roots_output() {
    assert_eq!(
        parse_roots("/run/current-system -> /nix/store/abc-system\n\n/nix/var/nix/profiles/system\n"),
        vec!["/run/current-system".to_string(), "/nix/var/nix/profiles/system".to_string()]
    );
}

#[test]
fn adds_reachable_from_relations_for_roots() {
    let mut graph = EvidenceGraph::new();
    graph.add_entity(Entity::new(
        EntityId::new("file:/nix/store/abc123-bash/bin/bash"),
        EntityKind::Executable,
        "/nix/store/abc123-bash/bin/bash",
    ));

    NixBackend::with_runner(FakeCommandRunner::stdout("/run/current-system\n"))
        .investigate(&Query::Auto("bash".to_string()), &mut graph)
        .unwrap();

    let reachable_from =
        graph.relations().filter(|relation| relation.kind == RelationKind::ReachableFrom).collect::<Vec<_>>();
    assert_eq!(reachable_from.len(), 1);
    assert_eq!(graph.entity(&reachable_from[0].to).unwrap().name, "/run/current-system");
}

#[test]
fn direct_store_path_query_creates_store_path_match() {
    let mut graph = EvidenceGraph::new();
    let output = NixBackend::with_runner(FakeCommandRunner::stdout(""))
        .investigate(&Query::StorePath("/nix/store/abc123-bash".to_string()), &mut graph)
        .unwrap();

    assert_eq!(output.matches.len(), 1);
    assert_eq!(graph.entity(&output.matches[0]).unwrap().kind, EntityKind::StorePath);
}

#[test]
fn direct_path_inside_store_creates_file_match_and_belongs_to_relation() {
    let mut graph = EvidenceGraph::new();
    let output = NixBackend::with_runner(FakeCommandRunner::stdout(""))
        .investigate(&Query::StorePath("/nix/store/abc123-bash/bin/bash".to_string()), &mut graph)
        .unwrap();

    assert_eq!(output.matches.len(), 1);
    assert_eq!(graph.entity(&output.matches[0]).unwrap().kind, EntityKind::File);
    assert!(graph.relations().any(|relation| relation.kind == RelationKind::BelongsTo));
}

#[test]
fn nix_reports_a_graph_without_store_paths() {
    let mut graph = EvidenceGraph::new();
    let output = NixBackend::with_runner(FakeCommandRunner::stdout(""))
        .investigate(&Query::Auto("firefox".to_string()), &mut graph)
        .unwrap();

    assert!(output.matches.is_empty());
    assert_eq!(output.incomplete, vec!["nix did not find any /nix/store paths in the current graph".to_string()]);
}

// ---------------------------------------------------------------------------
// systemd
// ---------------------------------------------------------------------------

#[test]
fn parses_systemctl_show_output() {
    let properties =
        parse_show_output("Id=bluetooth.service\nActiveState=active\nFragmentPath=/nix/store/unit\nMainPID=42\n");

    assert_eq!(properties.get("Id").unwrap(), "bluetooth.service");
    assert_eq!(properties.get("MainPID").unwrap(), "42");
}

#[test]
fn normalizes_service_names() {
    assert_eq!(normalize_unit_name("bluetooth"), "bluetooth.service");
    assert_eq!(normalize_unit_name("ssh.socket"), "ssh.socket");
}

#[test]
fn service_query_creates_service_relations() {
    let stdout = "\
Id=bluetooth.service
LoadState=loaded
ActiveState=active
SubState=running
FragmentPath=/nix/store/abc-unit/bluetooth.service
MainPID=42
";
    let backend = SystemdBackend::with_runner(FakeCommandRunner::stdout(stdout));
    let mut graph = EvidenceGraph::new();
    let output = backend.investigate(&Query::Service("bluetooth".to_string()), &mut graph).unwrap();

    assert_eq!(output.matches.len(), 1);
    assert_eq!(graph.entity(&output.matches[0]).unwrap().kind, EntityKind::Service);
    assert!(graph.relations().any(|relation| relation.kind == RelationKind::ConfiguredBy));
    assert!(graph.relations().any(|relation| relation.kind == RelationKind::Uses));
}

#[test]
fn service_entity_keeps_states_under_snake_case_keys() {
    let stdout = "Id=bluetooth.service\nLoadState=loaded\nActiveState=active\nSubState=running\nMainPID=42\n";
    let backend = SystemdBackend::with_runner(FakeCommandRunner::stdout(stdout));
    let mut graph = EvidenceGraph::new();
    let output = backend.investigate(&Query::Service("bluetooth".to_string()), &mut graph).unwrap();

    let service = graph.entity(&output.matches[0]).unwrap();
    assert_eq!(service.name, "bluetooth.service");
    assert_eq!(service.metadata.get("load_state").unwrap(), "loaded");
    assert_eq!(service.metadata.get("active_state").unwrap(), "active");
    assert_eq!(service.metadata.get("sub_state").unwrap(), "running");
    assert_eq!(service.metadata.get("main_pid").unwrap(), "42");
    assert_eq!(graph.entity(&EntityId::new("process:42")).unwrap().name, "PID 42");
}

#[test]
fn systemd_reports_failed_show() {
    let runner = FakeCommandRunner {
        output: Ok(CommandOutput { status: 1, stdout: String::new(), stderr: "  no such unit \n".to_string() }),
    };
    let mut graph = EvidenceGraph::new();
    let error =
        SystemdBackend::with_runner(runner).investigate(&Query::Service("nope".to_string()), &mut graph).unwrap_err();

    assert_eq!(error, BackendError::Failed("systemctl show nope.service failed: no such unit".to_string()));
}

#[test]
fn systemd_reports_runner_error_in_debug_form() {
    let runner = FakeCommandRunner { output: Err(CommandError::Io("boom".to_string())) };
    let mut graph = EvidenceGraph::new();
    let error =
        SystemdBackend::with_runner(runner).investigate(&Query::Service("x".to_string()), &mut graph).unwrap_err();

    assert_eq!(error, BackendError::Failed("systemctl show failed: Io(\"boom\")".to_string()));
}

#[test]
fn systemd_reports_empty_show_output() {
    let mut graph = EvidenceGraph::new();
    let output = SystemdBackend::with_runner(FakeCommandRunner::stdout(""))
        .investigate(&Query::Service("ghost".to_string()), &mut graph)
        .unwrap();

    assert_eq!(output.incomplete, vec!["systemd returned no data for ghost.service".to_string()]);
    assert!(graph.is_empty());
}

#[test]
fn systemd_refuses_other_queries() {
    let mut graph = EvidenceGraph::new();
    let error = SystemdBackend::with_runner(FakeCommandRunner::stdout(""))
        .investigate(&Query::Auto("x".to_string()), &mut graph)
        .unwrap_err();

    assert_eq!(error, BackendError::UnsupportedQuery);
}

// ---------------------------------------------------------------------------
// procfs
// ---------------------------------------------------------------------------

#[test]
fn formats_nul_separated_cmdline() {
    assert_eq!(format_cmdline(b"bash\0-l\0"), "bash -l");
}

#[test]
fn formats_cmdline_skipping_empty_arguments() {
    assert_eq!(format_cmdline(b"\0a\0\0b"), "a b");
    assert_eq!(format_cmdline(b""), "");
}

#[test]
fn pid_query_creates_process_and_executable_relation() {
    let fs = FakeFs::default()
        .dir("/fx")
        .dir("/fx/42")
        .file("/fx/42/comm", b"demo\n", false)
        .file("/fx/42/cmdline", b"demo\0--flag\0", false)
        .file("/fx/42/status", b"Name:\tdemo\nPPid:\t7\n", false)
        .dir("/fx/7")
        .file("/fx/7/comm", b"parent\n", false)
        .file("/fx/bin-demo", b"", false)
        .link("/fx/42/exe", "/fx/bin-demo");

    let backend = ProcfsBackend::with_proc_root(fs, "/fx");
    let mut graph = EvidenceGraph::new();
    let output = backend.investigate(&Query::Process(42), &mut graph).unwrap();

    assert_eq!(output.matches.len(), 1);
    assert_eq!(graph.entity(&output.matches[0]).unwrap().kind, EntityKind::Process);
    assert!(graph.relations().any(|relation| relation.kind == RelationKind::Uses));
    assert!(graph.relations().any(|relation| relation.kind == RelationKind::StartedBy));

    let process = graph.entity(&EntityId::new("process:42")).unwrap();
    assert_eq!(process.name, "demo (42)");
    assert_eq!(process.metadata.get("cmdline").unwrap(), "demo --flag");
    assert_eq!(graph.entity(&EntityId::new("process:7")).unwrap().name, "parent (7)");
}

#[test]
fn reads_parent_pid_from_status() {
    assert_eq!(parse_parent_pid("Name:\tdemo\nPPid:\t123\n"), Some(123));
    assert_eq!(parse_parent_pid("Name:\tinit\nPPid:\t0\n"), None);
}

#[test]
fn enriches_existing_process_without_adding_match() {
    let fs = FakeFs::default()
        .dir("/fx")
        .dir("/fx/42")
        .file("/fx/42/comm", b"demo\n", false)
        .file("/fx/bin-demo", b"", false)
        .link("/fx/42/exe", "/fx/bin-demo");

    let backend = ProcfsBackend::with_proc_root(fs, "/fx");
    let mut graph = EvidenceGraph::new();
    graph.add_entity(Entity::new(EntityId::new("process:42"), EntityKind::Process, "PID 42"));

    let output = backend.investigate(&Query::Service("demo".to_string()), &mut graph).unwrap();

    assert!(output.matches.is_empty());
    assert!(graph.relations().any(|relation| relation.kind == RelationKind::Uses));
}

#[test]
fn procfs_reports_missing_process() {
    let backend = ProcfsBackend::with_proc_root(FakeFs::default().dir("/fx"), "/fx");
    let mut graph = EvidenceGraph::new();
    let output = backend.investigate(&Query::Process(9), &mut graph).unwrap();

    assert!(output.matches.is_empty());
    assert_eq!(output.incomplete, vec!["procfs could not find PID 9".to_string()]);
    assert!(graph.is_empty());
}

#[test]
fn procfs_reports_unreadable_executable() {
    let fs = FakeFs::default().dir("/fx").dir("/fx/5");
    let backend = ProcfsBackend::with_proc_root(fs, "/fx");
    let mut graph = EvidenceGraph::new();
    let output = backend.investigate(&Query::Process(5), &mut graph).unwrap();

    assert_eq!(output.matches.len(), 1);
    assert_eq!(
        output.incomplete,
        vec!["procfs could not read executable for PID 5: Invalid argument (os error 22)".to_string()]
    );
    assert_eq!(graph.entity(&EntityId::new("process:5")).unwrap().name, "PID 5");
}

// ---------------------------------------------------------------------------
// filesystem
// ---------------------------------------------------------------------------

#[test]
fn auto_query_finds_executable_in_path() {
    let fs = FakeFs::default().dir("/fx").file("/fx/demo", b"#!/bin/sh\n", true);
    let backend = FileSystemBackend::with_path_env("/fx", fs);
    let mut graph = EvidenceGraph::new();
    let output = backend.investigate(&Query::Auto("demo".to_string()), &mut graph).unwrap();

    assert_eq!(output.matches.len(), 1);
    assert_eq!(graph.entity_count(), 1);
}

#[test]
fn auto_query_takes_the_first_executable_in_path_order() {
    let fs = FakeFs::default()
        .file("/a/tool", b"", false)
        .file("/b/tool", b"", true)
        .file("/c/tool", b"", true);
    let backend = FileSystemBackend::with_path_env("::/a:/b:/c", fs);
    let mut graph = EvidenceGraph::new();
    let output = backend.investigate(&Query::Auto("tool".to_string()), &mut graph).unwrap();

    assert_eq!(output.matches, vec![EntityId::new("file:/b/tool")]);
    assert_eq!(graph.entity(&output.matches[0]).unwrap().kind, EntityKind::Executable);
}

#[test]
fn auto_query_reports_missing_executable_with_quoted_name() {
    let backend = FileSystemBackend::with_path_env("/fx", FakeFs::default());
    let mut graph = EvidenceGraph::new();
    let output = backend.investigate(&Query::Auto("nope".to_string()), &mut graph).unwrap();

    assert_eq!(output.incomplete, vec!["filesystem could not find executable \"nope\" in PATH".to_string()]);
}

#[test]
fn file_query_records_symlink_resolution() {
    let fs = FakeFs::default().dir("/fx").file("/fx/target", b"target\n", false).link("/fx/link", "/fx/target");
    let backend = FileSystemBackend::with_path_env("", fs);
    let mut graph = EvidenceGraph::new();
    let output = backend.investigate(&Query::File("/fx/link".to_string()), &mut graph).unwrap();

    assert_eq!(output.matches.len(), 1);
    assert_eq!(graph.relation_count(), 1);
    assert_eq!(graph.relations().next().unwrap().kind, RelationKind::ResolvesTo);
}

#[test]
fn file_query_reports_missing_path() {
    let backend = FileSystemBackend::with_path_env("", FakeFs::default());
    let mut graph = EvidenceGraph::new();
    let output = backend.investigate(&Query::File("/missing".to_string()), &mut graph).unwrap();

    assert_eq!(output.incomplete, vec!["filesystem could not find path /missing".to_string()]);
}

#[test]
fn service_query_enriches_existing_file_entities() {
    let fs = FakeFs::default()
        .dir("/fx")
        .file("/fx/target.service", b"[Service]\n", false)
        .link("/fx/linked.service", "/fx/target.service");
    let backend = FileSystemBackend::with_path_env("", fs);
    let mut graph = EvidenceGraph::new();
    graph.add_entity(Entity::new(
        EntityId::new(&format!("file:{}", "/fx/linked.service")),
        EntityKind::File,
        "/fx/linked.service",
    ));

    let output = backend.investigate(&Query::Service("linked".to_string()), &mut graph).unwrap();

    assert!(output.matches.is_empty());
    assert_eq!(graph.relation_count(), 1);
    assert_eq!(graph.relations().next().unwrap().kind, RelationKind::ResolvesTo);
}

#[test]
fn filesystem_refuses_package_queries() {
    let backend = FileSystemBackend::with_path_env("", FakeFs::default());
    let mut graph = EvidenceGraph::new();
    let error = backend.investigate(&Query::Package("x".to_string()), &mut graph).unwrap_err();

    assert_eq!(error, BackendError::UnsupportedQuery);
}
