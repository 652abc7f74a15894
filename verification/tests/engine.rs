use syswhy::backend::command::{CommandError, CommandOutput, CommandRunner};
use syswhy::backend::host::FileSystem;
use syswhy::backend::{BackendState, BackendStatus, SystemContext};
use syswhy::engine::{Engine, Investigation};
use syswhy::Query;

/// A runner whose commands all print nothing and succeed.
struct QuietRunner;

impl CommandRunner for QuietRunner {
    fn run(&self, _program: &str, _args: &[&str]) -> Result<CommandOutput, CommandError> {
        Ok(CommandOutput { status: 0, stdout: String::new(), stderr: String::new() })
    }
}

/// A file system with nothing in it but the process root.
struct BareFs;

impl FileSystem for BareFs {
    fn path_exists(&self, path: &str) -> bool {
        path == "/proc"
    }

    fn is_file(&self, _path: &str) -> bool {
        false
    }

    fn is_executable(&self, _path: &str) -> bool {
        false
    }

    fn canonicalize(&self, _path: &str) -> Result<String, String> {
        Err("No such file or directory (os error 2)".to_string())
    }

    fn read_to_string(&self, _path: &str) -> Option<String> {
        None
    }

    fn read(&self, _path: &str) -> Option<Vec<u8>> {
        None
    }

    fn read_link(&self, _path: &str) -> Result<String, String> {
        Err("No such file or directory (os error 2)".to_string())
    }
}

fn context() -> SystemContext {
    SystemContext { has_systemd: true, has_nix_store: true, path_env: Some("/usr/bin:/bin".to_string()) }
}

fn investigate(query: Query) -> Investigation {
    Engine::new().investigate(query, &context(), &QuietRunner, &BareFs)
}

fn status_of<'a>(investigation: &'a Investigation, backend: &str) -> &'a BackendStatus {
    investigation.backend_status.iter().find(|status| status.backend == backend).unwrap()
}

#[test]
fn unsupported_query_marks_filesystem_not_used() {
    let investigation = investigate(Query::Package("firefox".to_string()));

    let filesystem = status_of(&investigation, "filesystem");

    assert_eq!(filesystem.state, BackendState::NotUsed);
    assert!(investigation.matches.is_empty());
}

#[test]
fn unsupported_query_still_runs_nix_as_graph_enricher_when_available() {
    let investigation = investigate(Query::Package("firefox".to_string()));

    let nix = status_of(&investigation, "nix");

    assert!(matches!(nix.state, BackendState::Succeeded | BackendState::Unavailable));
}

#[test]
fn unsupported_query_allows_procfs_enrichment() {
    let investigation = investigate(Query::Package("firefox".to_string()));

    let procfs = status_of(&investigation, "procfs");

    assert!(matches!(procfs.state, BackendState::Succeeded | BackendState::Unavailable));
}

#[test]
fn unsupported_query_marks_systemd_not_used() {
    let investigation = investigate(Query::Package("firefox".to_string()));

    let systemd = status_of(&investigation, "systemd");

    assert!(matches!(systemd.state, BackendState::NotUsed | BackendState::Unavailable));
}

#[test]
fn missing_auto_query_reports_filesystem_incomplete() {
    let investigation = investigate(Query::Auto("syswhy-definitely-not-a-real-executable-name".to_string()));

    assert!(investigation.matches.is_empty());
    assert!(investigation.incomplete.iter().any(|message| message.contains("could not find executable")));
}

#[test]
fn backends_report_in_a_fixed_order() {
    let investigation = investigate(Query::Package("firefox".to_string()));
    let names: Vec<&str> = investigation.backend_status.iter().map(|s| s.backend.as_str()).collect();

    assert_eq!(names, vec!["systemd", "procfs", "filesystem", "nix"]);
    assert_eq!(investigation.answer, "No explanation available yet.");
}

#[test]
fn undetected_backends_are_unavailable() {
    let context = SystemContext { has_systemd: false, has_nix_store: false, path_env: None };
    let investigation = Engine::new().investigate(Query::Service("dbus".to_string()), &context, &QuietRunner, &BareFs);

    assert_eq!(status_of(&investigation, "systemd").state, BackendState::Unavailable);
    assert_eq!(status_of(&investigation, "nix").state, BackendState::Unavailable);
    assert_eq!(status_of(&investigation, "procfs").state, BackendState::Succeeded);
    assert_eq!(
        investigation.incomplete,
        vec!["No backend has produced an explanation for this query.".to_string()]
    );
}

#[test]
fn recording_a_failed_backend_keeps_its_message() {
    let mut investigation = Investigation::empty(Query::Auto("x".to_string()));
    investigation.backend_status.clear();
    investigation.record_backend(
        "systemd",
        true,
        true,
        Err(syswhy::backend::BackendError::Failed("systemctl show x.service failed: boom".to_string())),
    );
    investigation.record_backend("nix", false, true, Err(syswhy::backend::BackendError::NotImplemented));

    assert_eq!(
        investigation.backend_status,
        vec![
            BackendStatus::new("systemd", BackendState::Error("systemctl show x.service failed: boom".to_string())),
            BackendStatus::new("nix", BackendState::Unavailable),
        ]
    );
}

#[test]
fn concluding_with_a_match_names_what_was_found() {
    let mut investigation = Investigation::empty(Query::StorePath("/nix/store/abc".to_string()));
    investigation.incomplete.clear();
    investigation.matches.push(syswhy::EntityId::new("store-path:/nix/store/abc"));
    investigation.conclude();

    assert_eq!(investigation.answer, "Nix store path found.");
    assert!(investigation.incomplete.is_empty());
}
