use syswhy::cli::json;
use syswhy::cli::plain::{self, is_renderable, render_with_color, PlainRenderMode};
use syswhy::cli::{CliArgs, OutputMode};
use syswhy::engine::Investigation;
use syswhy::{Confidence, Entity, EntityId, EntityKind, Evidence, EvidenceGraph, Query, Relation, RelationKind};

#[test]
fn parses_output_mode_and_query() {
    let args = CliArgs::parse(&["--json", "firefox"]).unwrap();

    assert_eq!(args.output_mode, OutputMode::Json);
    assert_eq!(args.query, Query::Auto("firefox".to_string()));
}

#[test]
fn rejects_unknown_options() {
    let error = CliArgs::parse(&["--wat", "firefox"]).unwrap_err();

    assert!(error.to_string().contains("unknown option"));
}

#[test]
fn last_output_option_wins_and_help_stops() {
    let args = CliArgs::parse(&["--debug", "pid", "--full", "42"]).unwrap();
    assert_eq!(args.output_mode, OutputMode::Full);
    assert_eq!(args.query, Query::Process(42));

    let error = CliArgs::parse(&["firefox", "-h", "--wat"]).unwrap_err();
    assert_eq!(error.to_string(), format!("invalid query: {}", CliArgs::usage()));

    let error = CliArgs::parse(&["--plain"]).unwrap_err();
    assert_eq!(error.to_string(), "invalid query: expected a query, for example: syswhy firefox");
}

#[test]
fn renders_empty_phase_zero_investigation_as_json() {
    let investigation = Investigation::empty(Query::Auto("firefox".to_string()));
    let output = json::render(&investigation);

    assert!(output.contains("\"kind\": \"auto\""));
    assert!(output.contains("\"value\": \"firefox\""));
    assert!(output.contains("\"entities\": []"));
    assert!(output.contains("\"relations\": []"));
    assert!(output.contains("\"backend\": \"filesystem\""));
}

#[test]
fn escapes_json_strings() {
    assert_eq!(json::json_string("a\"b\\c"), "\"a\\\"b\\\\c\"");
}

#[test]
fn escapes_control_characters_as_unicode() {
    assert_eq!(json::json_string("a\nb\tc\r\u{1}\u{7f}\u{9f}é"), "\"a\\nb\\tc\\r\\u0001\\u007f\\u009fé\"");
}

#[test]
fn renders_a_whole_json_document() {
    let investigation = investigation_with_one_relation();
    let output = json::render(&investigation);

    let expected = "{\n  \"query\": {\n    \"kind\": \"auto\",\n    \"value\": \"link\"\n  },\n  \"entities\": [\n    {\n      \"id\": \"file:/tmp/link\",\n      \"kind\": \"executable\",\n      \"name\": \"/tmp/link\"\n    },\n    {\n      \"id\": \"file:/tmp/target\",\n      \"kind\": \"file\",\n      \"name\": \"/tmp/target\"\n    }\n  ],\n  \"relations\": [\n    {\n      \"from\": \"file:/tmp/link\",\n      \"to\": \"file:/tmp/target\",\n      \"kind\": \"resolves_to\",\n      \"confidence\": \"exact\"\n    }\n  ],\n  \"incomplete\": [],\n  \"backend_status\": []\n}\n";
    assert_eq!(output, expected);
}

#[test]
fn renders_empty_phase_zero_investigation() {
    let investigation = Investigation::empty(Query::Auto("firefox".to_string()));
    let output = plain::render(&investigation, PlainRenderMode::Compact);

    assert!(output.contains("Query"));
    assert!(output.contains("interpreted as auto search"));
    assert!(output.contains("No explanation available yet."));
    assert!(output.contains("No backend has produced an explanation"));
    assert!(output.contains("filesystem not implemented"));
}

#[test]
fn renders_empty_investigation_exactly() {
    let investigation = Investigation::empty(Query::Auto("firefox".to_string()));
    let output = plain::render(&investigation, PlainRenderMode::Compact);

    assert_eq!(
        output,
        "Query\n  firefox\n  interpreted as auto search\n\nAnswer\n  No explanation available yet.\n\nIncomplete\n  No backend has produced an explanation for this query.\n\nBackend status\n  filesystem not implemented\n  nix        not implemented\n  procfs     not implemented\n  systemd    not implemented\n"
    );
}

#[test]
fn renders_detailed_evidence_section() {
    let mut graph = EvidenceGraph::new();
    let from = graph.add_entity(Entity::new(EntityId::new("file:/tmp/link"), EntityKind::Executable, "/tmp/link"));
    let to = graph.add_entity(Entity::new(EntityId::new("file:/tmp/target"), EntityKind::File, "/tmp/target"));
    graph.add_relation(Relation::new(
        from.clone(),
        to,
        RelationKind::ResolvesTo,
        Confidence::Exact,
        vec![Evidence::new(
            "filesystem",
            "std::fs::canonicalize",
            "Path resolves to this canonical target",
            Confidence::Exact,
        )],
    ));

    let investigation = Investigation {
        query: Query::Auto("link".to_string()),
        answer: "Found an executable in PATH.".to_string(),
        graph,
        matches: vec![from],
        incomplete: Vec::new(),
        backend_status: Vec::new(),
    };

    let output = plain::render(&investigation, PlainRenderMode::Evidence);

    assert!(output.contains("[e1 exact]"));
    assert!(output.contains("Evidence"));
    assert!(output.contains("Relation: /tmp/link --resolves to--> /tmp/target"));
    assert!(output.contains("Backend: filesystem"));
    assert!(output.contains("Description: Path resolves to this canonical target"));
}

#[test]
fn compact_graph_renders_relation_and_target_on_one_line() {
    let investigation = investigation_with_one_relation();
    let output = plain::render(&investigation, PlainRenderMode::Compact);

    assert!(output.contains("└── resolves to /tmp/target [e1 exact]"));
}

#[test]
fn compact_graph_groups_repeated_leaf_targets() {
    let mut graph = EvidenceGraph::new();
    let store = graph.add_entity(Entity::new(
        EntityId::new("store-path:/nix/store/demo"),
        EntityKind::StorePath,
        "/nix/store/demo",
    ));
    let root_one = graph.add_entity(Entity::new(
        EntityId::new("file:/nix/var/nix/profiles/system-1-link"),
        EntityKind::File,
        "system profile",
    ));
    let root_two = graph.add_entity(Entity::new(
        EntityId::new("file:/nix/var/nix/profiles/system-2-link"),
        EntityKind::File,
        "system profile",
    ));
    for root in [root_one, root_two] {
        graph.add_relation(Relation::new(
            store.clone(),
            root,
            RelationKind::ReachableFrom,
            Confidence::Exact,
            vec![Evidence::new("nix", "nix-store --query --roots", "Nix reports this root", Confidence::Exact)],
        ));
    }

    let investigation = Investigation {
        query: Query::StorePath("/nix/store/demo".into()),
        answer: "Nix store path found.".to_string(),
        graph,
        matches: vec![store],
        incomplete: Vec::new(),
        backend_status: Vec::new(),
    };
    let output = plain::render(&investigation, PlainRenderMode::Compact);

    assert!(output.contains("kept because of system profile (2) [e1 +1 exact]"));
}

#[test]
fn compact_graph_groups_low_signal_systemd_units() {
    let investigation = investigation_with_systemd_dependencies();
    let output = plain::render(&investigation, PlainRenderMode::Compact);

    assert!(output.contains("requires dbus.socket"));
    assert!(output.contains("requires systemd base units (2)"));
    assert!(!output.contains("requires system.slice"));
    assert!(!output.contains("requires -.mount"));
}

#[test]
fn full_graph_keeps_low_signal_systemd_units() {
    let investigation = investigation_with_systemd_dependencies();
    let output = plain::render(&investigation, PlainRenderMode::Full);

    assert!(output.contains("requires dbus.socket"));
    assert!(output.contains("requires system.slice"));
    assert!(output.contains("requires -.mount"));
}

#[test]
fn full_mode_renders_graph_details() {
    let investigation = investigation_with_one_relation();
    let output = plain::render(&investigation, PlainRenderMode::Full);

    assert!(output.contains("Evidence"));
    assert!(output.contains("Graph"));
    assert!(output.contains("Entities:"));
    assert!(output.contains("Relations:"));
}

#[test]
fn debug_mode_renders_debug_diagnostics() {
    let investigation = investigation_with_one_relation();
    let output = plain::render(&investigation, PlainRenderMode::Debug);

    assert!(output.contains("Graph"));
    assert!(output.contains("Debug"));
    assert!(output.contains("Entity count: 2"));
    assert!(output.contains("Relation count: 1"));
}

#[test]
fn compact_tree_renders_exactly() {
    let investigation = investigation_with_one_relation();
    let output = plain::render(&investigation, PlainRenderMode::Compact);

    assert_eq!(
        output,
        "Query\n  link\n  interpreted as auto search\n\nAnswer\n  Found an executable in PATH.\n\nMatches\n  > executable  /tmp/link\n\nMain chain\n/tmp/link\n└── resolves to /tmp/target [e1 exact]\n"
    );
}

#[test]
fn colored_output_styles_titles_and_branches() {
    let investigation = investigation_with_one_relation();
    let output = render_with_color(&investigation, PlainRenderMode::Compact, true);

    assert!(output.starts_with("\x1b[92mQuery\x1b[0m\n"));
    assert!(output.contains("  \x1b[36m>\x1b[0m executable  /tmp/link\n"));
    assert!(output.contains("\x1b[90m└──\x1b[0m resolves to \x1b[97m/tmp/target\x1b[0m\x1b[90m [e1 exact]\x1b[0m\n"));
}

#[test]
fn cyclic_graphs_are_not_renderable() {
    let mut graph = EvidenceGraph::new();
    let a = graph.add_entity(Entity::new(EntityId::new("a"), EntityKind::File, "a"));
    let b = graph.add_entity(Entity::new(EntityId::new("b"), EntityKind::File, "b"));
    graph.add_relation(Relation::new(a.clone(), b.clone(), RelationKind::Uses, Confidence::Exact, Vec::new()));
    graph.add_relation(Relation::new(b, a.clone(), RelationKind::Uses, Confidence::Exact, Vec::new()));
    let investigation = Investigation {
        query: Query::Auto("a".to_string()),
        answer: String::new(),
        graph,
        matches: vec![a],
        incomplete: Vec::new(),
        backend_status: Vec::new(),
    };

    for mode in [PlainRenderMode::Compact, PlainRenderMode::Evidence, PlainRenderMode::Full, PlainRenderMode::Debug] {
        assert!(!is_renderable(&investigation, mode));
        assert!(is_renderable(&investigation_with_one_relation(), mode));
    }
}

#[test]
fn mixed_confidence_marker_omits_the_level() {
    let mut graph = EvidenceGraph::new();
    let from = graph.add_entity(Entity::new(EntityId::new("file:/a"), EntityKind::File, "/a"));
    let to = graph.add_entity(Entity::new(EntityId::new("file:/b"), EntityKind::File, "/b"));
    graph.add_relation(Relation::new(
        from.clone(),
        to,
        RelationKind::ResolvesTo,
        Confidence::Exact,
        vec![
            Evidence::new("filesystem", "one", "", Confidence::Exact),
            Evidence::new("filesystem", "two", "", Confidence::Inferred),
        ],
    ));
    let investigation = Investigation {
        query: Query::File("/a".to_string()),
        answer: String::new(),
        graph,
        matches: vec![from],
        incomplete: Vec::new(),
        backend_status: Vec::new(),
    };
    let output = plain::render(&investigation, PlainRenderMode::Evidence);

    assert!(output.contains("└── resolves to /b [e1 +1]\n"));
    assert!(output.contains("  [e2]\n    Relation: /a --resolves to--> /b\n    Backend: filesystem\n    Source: two\n    Confidence: inferred\n"));
    assert!(!output.contains("Description:"));
}

#[test]
fn chain_marker_names_its_evidence_entry() {
    let investigation = investigation_with_one_relation();
    let output = plain::render(&investigation, PlainRenderMode::Evidence);

    assert!(output.contains("└── resolves to /tmp/target [e1 exact]\n"));
    assert!(output.contains(
        "\n\nEvidence\n  [e1]\n    Relation: /tmp/link --resolves to--> /tmp/target\n    Backend: filesystem\n"
    ));
}

/// The text with every `ESC [ digits m` sequence taken out.
fn strip_styles(text: &str) -> String {
    let chars: Vec<char> = text.chars().collect();
    let mut out = String::new();
    let mut i = 0;
    while i < chars.len() {
        if chars[i] == '\x1b' && i + 1 < chars.len() && chars[i + 1] == '[' {
            let mut j = i + 2;
            while j < chars.len() && chars[j].is_ascii_digit() {
                j += 1;
            }
            if j < chars.len() && chars[j] == 'm' {
                i = j + 1;
                continue;
            }
        }
        out.push(chars[i]);
        i += 1;
    }
    out
}

#[test]
fn stripping_the_styles_gives_the_colourless_text() {
    let investigation = investigation_with_one_relation();
    for mode in [PlainRenderMode::Compact, PlainRenderMode::Evidence, PlainRenderMode::Full, PlainRenderMode::Debug] {
        let colored = render_with_color(&investigation, mode, true);
        let plain_text = render_with_color(&investigation, mode, false);

        assert!(!plain_text.contains('\x1b'));
        assert_eq!(strip_styles(&colored), plain_text);
        assert_eq!(plain_text, plain::render(&investigation, mode));
    }
}

#[test]
fn a_cycle_through_a_folded_unit_is_drawn_in_compact_mode() {
    let mut graph = EvidenceGraph::new();
    let service = graph.add_entity(Entity::new(
        EntityId::new("service:systemd:dbus.service"),
        EntityKind::Service,
        "dbus.service",
    ));
    let slice = graph.add_entity(Entity::new(
        EntityId::new("service:systemd:system.slice"),
        EntityKind::Service,
        "system.slice",
    ));
    let mount = graph.add_entity(Entity::new(EntityId::new("service:systemd:-.mount"), EntityKind::Service, "-.mount"));
    let systemd_evidence = || {
        vec![Evidence::new(
            "systemd",
            "systemctl show dbus.service --property=Requires",
            "systemd reports this Requires unit relationship",
            Confidence::Exact,
        )]
    };
    graph.add_relation(Relation::new(service.clone(), slice, RelationKind::Requires, Confidence::Exact, systemd_evidence()));
    graph.add_relation(Relation::new(service.clone(), mount.clone(), RelationKind::Requires, Confidence::Exact, systemd_evidence()));
    graph.add_relation(Relation::new(mount, service.clone(), RelationKind::Requires, Confidence::Exact, systemd_evidence()));
    let investigation = Investigation {
        query: Query::Service("dbus".to_string()),
        answer: "Service found.".to_string(),
        graph,
        matches: vec![service],
        incomplete: Vec::new(),
        backend_status: Vec::new(),
    };

    assert!(is_renderable(&investigation, PlainRenderMode::Compact));
    assert!(is_renderable(&investigation, PlainRenderMode::Evidence));
    assert!(!is_renderable(&investigation, PlainRenderMode::Full));
    assert!(!is_renderable(&investigation, PlainRenderMode::Debug));
    let output = plain::render(&investigation, PlainRenderMode::Compact);
    assert!(output.ends_with("\n\nMain chain\ndbus.service\n└── requires systemd base units (2) [e1 +1 exact]\n"));
}

fn investigation_with_one_relation() -> Investigation {
    let mut graph = EvidenceGraph::new();
    let from = graph.add_entity(Entity::new(EntityId::new("file:/tmp/link"), EntityKind::Executable, "/tmp/link"));
    let to = graph.add_entity(Entity::new(EntityId::new("file:/tmp/target"), EntityKind::File, "/tmp/target"));
    graph.add_relation(Relation::new(
        from.clone(),
        to,
        RelationKind::ResolvesTo,
        Confidence::Exact,
        vec![Evidence::new(
            "filesystem",
            "std::fs::canonicalize",
            "Path resolves to this canonical target",
            Confidence::Exact,
        )],
    ));

    Investigation {
        query: Query::Auto("link".to_string()),
        answer: "Found an executable in PATH.".to_string(),
        graph,
        matches: vec![from],
        incomplete: Vec::new(),
        backend_status: Vec::new(),
    }
}

fn investigation_with_systemd_dependencies() -> Investigation {
    let mut graph = EvidenceGraph::new();
    let service = graph.add_entity(Entity::new(
        EntityId::new("service:systemd:dbus.service"),
        EntityKind::Service,
        "dbus.service",
    ));

    for dependency in ["dbus.socket", "system.slice", "-.mount"] {
        let dependency_id = graph.add_entity(Entity::new(
            EntityId::new(&format!("service:systemd:{dependency}")),
            EntityKind::Service,
            dependency,
        ));
        graph.add_relation(Relation::new(
            service.clone(),
            dependency_id,
            RelationKind::Requires,
            Confidence::Exact,
            vec![Evidence::new(
                "systemd",
                "systemctl show dbus.service --property=Requires",
                "systemd reports this Requires unit relationship",
                Confidence::Exact,
            )],
        ));
    }

    Investigation {
        query: Query::Service("dbus".to_string()),
        answer: "Service found.".to_string(),
        graph,
        matches: vec![service],
        incomplete: Vec::new(),
        backend_status: Vec::new(),
    }
}

#[test]
fn markers_cite_the_numbers_of_the_evidence_section() {
    let mut graph = EvidenceGraph::new();
    let a = graph.add_entity(Entity::new(EntityId::new("file:/a"), EntityKind::File, "/a"));
    let b = graph.add_entity(Entity::new(EntityId::new("file:/b"), EntityKind::File, "/b"));
    let c = graph.add_entity(Entity::new(EntityId::new("file:/c"), EntityKind::File, "/c"));
    graph.add_relation(Relation::new(
        a.clone(),
        b,
        RelationKind::ResolvesTo,
        Confidence::Exact,
        vec![Evidence::new("filesystem", "one", "", Confidence::Exact)],
    ));
    graph.add_relation(Relation::new(
        a.clone(),
        c,
        RelationKind::Uses,
        Confidence::Strong,
        vec![
            Evidence::new("procfs", "two", "", Confidence::Strong),
            Evidence::new("procfs", "three", "", Confidence::Strong),
        ],
    ));
    let investigation = Investigation {
        query: Query::File("/a".to_string()),
        answer: String::new(),
        graph,
        matches: vec![a],
        incomplete: Vec::new(),
        backend_status: Vec::new(),
    };
    let output = plain::render(&investigation, PlainRenderMode::Evidence);

    assert!(output.contains("├── resolves to /b [e1 exact]\n"));
    assert!(output.contains("└── uses /c [e2 +1 strong]\n"));
    assert!(output.contains("  [e2]\n    Relation: /a --uses--> /c\n    Backend: procfs\n    Source: two\n"));
    assert!(output.contains("  [e3]\n    Relation: /a --uses--> /c\n    Backend: procfs\n    Source: three\n"));
}
