use syswhy::backend::command::{CommandError, CommandOutput, CommandRunner};
use syswhy::backend::host::FileSystem;
use syswhy::backend::filesystem::FileSystemBackend;
use syswhy::backend::nix::NixBackend;
use syswhy::backend::{Backend, SystemContext};
use syswhy::cli::json::json_string;
use syswhy::engine::Engine;
use syswhy::{
    Confidence, Entity, EntityId, EntityKind, Evidence, EvidenceGraph, Metadata, Protocol, Query, Relation, RelationKind,
};
use std::cell::RefCell;
use std::cmp::Ordering;

struct RootsRunner;

impl CommandRunner for RootsRunner {
    fn run(&self, _program: &str, _args: &[&str]) -> Result<CommandOutput, CommandError> {
        Ok(CommandOutput { status: 0, stdout: "/run/current-system\n".to_string(), stderr: String::new() })
    }
}

/// `/usr/bin/tool` is a link to an executable in the Nix store.
struct StoreLinkFs;

impl FileSystem for StoreLinkFs {
    fn path_exists(&self, path: &str) -> bool {
        path == "/proc" || path == "/usr/bin/tool" || path == "/nix/store/abc-tool/bin/tool"
    }

    fn is_file(&self, path: &str) -> bool {
        path == "/usr/bin/tool" || path == "/nix/store/abc-tool/bin/tool"
    }

    fn is_executable(&self, path: &str) -> bool {
        self.is_file(path)
    }

    fn canonicalize(&self, path: &str) -> Result<String, String> {
        if self.is_file(path) {
            Ok("/nix/store/abc-tool/bin/tool".to_string())
        } else {
            Err("No such file or directory (os error 2)".to_string())
        }
    }

    fn read_to_string(&self, _path: &str) -> Option<String> {
        None
    }

    fn read(&self, _path: &str) -> Option<Vec<u8>> {
        None
    }

    fn read_link(&self, _path: &str) -> Result<String, String> {
        Err("Invalid argument (os error 22)".to_string())
    }
}

#[test]
fn every_relation_of_an_investigation_has_evidence() {
    let context = SystemContext { has_systemd: false, has_nix_store: true, path_env: Some("/usr/bin".to_string()) };
    let investigation = Engine::new().investigate(Query::Auto("tool".to_string()), &context, &RootsRunner, &StoreLinkFs);

    assert_eq!(investigation.matches, vec![EntityId::new("file:/usr/bin/tool")]);
    assert_eq!(investigation.answer, "Executable found in PATH.");
    let kinds: Vec<RelationKind> = investigation.graph.relations().map(|r| r.kind).collect();
    assert_eq!(kinds, vec![RelationKind::ResolvesTo, RelationKind::BelongsTo, RelationKind::ReachableFrom]);
    assert!(investigation.graph.relations().all(|r| !r.evidence.is_empty()));
}

#[test]
fn metadata_reads_back_what_was_inserted() {
    let mut metadata = Metadata::new();
    assert_eq!(metadata.insert("b".to_string(), "1".to_string()), None);
    assert_eq!(metadata.insert("a".to_string(), "2".to_string()), None);
    assert_eq!(metadata.insert("b".to_string(), "3".to_string()), Some("1".to_string()));

    assert_eq!(metadata.get("b").unwrap(), "3");
    assert_eq!(metadata.get("a").unwrap(), "2");
    assert!(metadata.get("c").is_none());
    assert_eq!(metadata.len(), 2);
    assert_eq!(metadata.entry(0), (&"a".to_string(), &"2".to_string()));
}

#[test]
fn adding_a_relation_twice_changes_nothing() {
    let mut graph = EvidenceGraph::new();
    let relation = Relation::new(
        EntityId::new("a"),
        EntityId::new("b"),
        RelationKind::Uses,
        Confidence::Strong,
        vec![Evidence::new("procfs", "/proc/1/exe", "x", Confidence::Strong)],
    );
    graph.add_relation(relation.clone());
    graph.add_relation(relation);

    assert_eq!(graph.relation_count(), 1);
    assert_eq!(graph.relations().next().unwrap().evidence.len(), 1);
}

#[test]
fn entities_stay_ordered_by_identifier() {
    let mut graph = EvidenceGraph::new();
    for id in ["c", "a", "b", "a"] {
        graph.add_entity(Entity::new(EntityId::new(id), EntityKind::File, id));
    }
    let ids: Vec<&str> = graph.entities().map(|e| e.id.as_str()).collect();

    assert_eq!(ids, vec!["a", "b", "c"]);
}

#[test]
fn a_single_word_is_its_own_value() {
    for word in ["firefox", "/usr/bin/bash", "/nix/store/abc", "./here"] {
        let query = Query::parse(&[word.to_string()]).unwrap();
        assert_eq!(query.value(), word);
    }
}

#[test]
fn json_strings_hold_no_control_characters() {
    let written = json_string("\u{0}\u{1f}\u{7f}\u{85}\n");

    assert!(!written.chars().any(|c| c.is_control()));
    assert_eq!(written, "\"\\u0000\\u001f\\u007f\\u0085\\n\"");
}

#[test]
fn entity_ids_order_as_their_text() {
    assert!(EntityId::new("a") < EntityId::new("b"));
    assert!(EntityId::new("file:/b") > EntityId::new("file:/a/z"));
    assert!(EntityId::new("ab") > EntityId::new("a"));
    assert_eq!(EntityId::new("x").partial_cmp(&EntityId::new("x")), Some(Ordering::Equal));
    assert_eq!(EntityId::new("Z").cmp(&EntityId::new("a")), Ordering::Less);

    let mut ids = vec![EntityId::new("service:b"), EntityId::new("file:/z"), EntityId::new("file:/a")];
    ids.sort();
    let texts: Vec<&str> = ids.iter().map(|id| id.as_str()).collect();
    assert_eq!(texts, vec!["file:/a", "file:/z", "service:b"]);
}

#[test]
fn every_entity_is_found_again_by_its_identifier() {
    let mut graph = EvidenceGraph::new();
    for id in ["service:x", "file:/b", "file:/a", "file:/b"] {
        graph.add_entity(Entity::new(EntityId::new(id), EntityKind::File, id));
    }
    let ids: Vec<EntityId> = graph.entities().map(|e| e.id.clone()).collect();

    assert_eq!(ids.len(), graph.entity_count());
    assert!(ids.windows(2).all(|w| w[0] < w[1]));
    for entity in graph.entities() {
        assert_eq!(graph.entity(&entity.id).unwrap().name, entity.name);
    }
}

#[test]
fn kind_and_value_parse_back_to_the_query() {
    let queries = vec![
        Query::Package("firefox".to_string()),
        Query::Process(42),
        Query::Service("sshd.service".to_string()),
        Query::Port { number: 53317, protocol: Some(Protocol::Udp) },
        Query::Port { number: 443, protocol: Some(Protocol::Tcp) },
        Query::Port { number: 80, protocol: None },
    ];
    for query in queries {
        let words = [query.kind().to_string(), query.value()];
        assert_eq!(Query::parse(&words).unwrap(), query);
    }
    assert_eq!(Query::Port { number: 53317, protocol: Some(Protocol::Udp) }.value(), "udp:53317");
    assert_eq!(Query::Port { number: 80, protocol: None }.value(), "80");
    assert_eq!(Query::Process(42).value(), "42");
}

/// The body of a JSON string literal, read as RFC 8259 reads it.
fn read_json_string(literal: &str) -> Option<String> {
    let inner = literal.strip_prefix('"')?.strip_suffix('"')?;
    let mut chars = inner.chars();
    let mut out = String::new();
    while let Some(c) = chars.next() {
        match c {
            '\\' => match chars.next()? {
                '"' => out.push('"'),
                '\\' => out.push('\\'),
                '/' => out.push('/'),
                'b' => out.push('\u{8}'),
                'f' => out.push('\u{c}'),
                'n' => out.push('\n'),
                'r' => out.push('\r'),
                't' => out.push('\t'),
                'u' => {
                    let hex: String = chars.by_ref().take(4).collect();
                    out.push(char::from_u32(u32::from_str_radix(&hex, 16).ok()?)?);
                },
                _ => return None,
            },
            '"' => return None,
            c if (c as u32) < 0x20 => return None,
            c => out.push(c),
        }
    }
    Some(out)
}

#[test]
fn json_strings_read_back() {
    for text in ["", "plain", "quote \" and \\ back", "tab\tnew\nline\r", "\u{0}\u{1f}\u{7f}\u{85}é✓"] {
        let written = json_string(text);
        assert!(written.starts_with('"') && written.ends_with('"'));
        assert_eq!(read_json_string(&written).as_deref(), Some(text));
    }
}

#[test]
fn search_path_constructors_investigate_alike() {
    let context = SystemContext { has_systemd: true, has_nix_store: false, path_env: Some("/usr/bin".to_string()) };
    let by_path = FileSystemBackend::with_path_env("/usr/bin", StoreLinkFs);
    let by_context = FileSystemBackend::from_context(&context, StoreLinkFs);
    for query in [Query::Auto("tool".to_string()), Query::Auto("missing".to_string()), Query::File("/usr/bin/tool".to_string())] {
        let mut g1 = EvidenceGraph::new();
        let mut g2 = EvidenceGraph::new();
        let r1 = by_path.investigate(&query, &mut g1).unwrap();
        let r2 = by_context.investigate(&query, &mut g2).unwrap();

        assert_eq!(format!("{:?}", r1), format!("{:?}", r2));
        assert_eq!(format!("{:?}", g1), format!("{:?}", g2));
    }
}

/// Answers every command with one root and remembers what was run.
struct RecordingRunner {
    calls: RefCell<Vec<(String, Vec<String>)>>,
}

impl CommandRunner for RecordingRunner {
    fn run(&self, program: &str, args: &[&str]) -> Result<CommandOutput, CommandError> {
        self.calls.borrow_mut().push((program.to_string(), args.iter().map(|a| a.to_string()).collect()));
        Ok(CommandOutput { status: 0, stdout: "/run/current-system\n".to_string(), stderr: String::new() })
    }
}

#[test]
fn nix_asks_for_the_roots_of_each_store_path_once() {
    let mut graph = EvidenceGraph::new();
    graph.add_entity(Entity::new(
        EntityId::new("file:/nix/store/abc123-bash/bin/bash"),
        EntityKind::Executable,
        "/nix/store/abc123-bash/bin/bash",
    ));
    graph.add_entity(Entity::new(EntityId::new("store-path:/nix/store/def456-lib"), EntityKind::StorePath, "/nix/store/def456-lib"));
    let runner = RecordingRunner { calls: RefCell::new(Vec::new()) };

    let output = NixBackend::with_runner(&runner).investigate(&Query::Auto("bash".to_string()), &mut graph).unwrap();

    assert!(output.incomplete.is_empty());
    let calls = runner.calls.borrow();
    assert_eq!(calls.len(), 2);
    assert_eq!(calls[0], ("nix-store".to_string(), vec!["--query".to_string(), "--roots".to_string(), "/nix/store/abc123-bash".to_string()]));
    assert_eq!(calls[1], ("nix-store".to_string(), vec!["--query".to_string(), "--roots".to_string(), "/nix/store/def456-lib".to_string()]));
    let reachable = graph.relations().filter(|r| r.kind == RelationKind::ReachableFrom).count();
    assert_eq!(reachable, 2);
}

#[test]
fn every_match_is_an_entity_of_the_graph() {
    let context = SystemContext { has_systemd: false, has_nix_store: true, path_env: Some("/usr/bin".to_string()) };
    for query in [
        Query::Auto("tool".to_string()),
        Query::File("/usr/bin/tool".to_string()),
        Query::StorePath("/nix/store/abc-tool/bin/tool".to_string()),
        Query::StorePath("/nix/store/abc-tool".to_string()),
    ] {
        let investigation = Engine::new().investigate(query, &context, &RootsRunner, &StoreLinkFs);

        assert!(!investigation.matches.is_empty());
        for id in &investigation.matches {
            assert!(investigation.graph.entity(id).is_some());
        }
    }
}
