use syswhy::domain::query::Protocol;
use syswhy::{Confidence, Entity, EntityId, EntityKind, Evidence, EvidenceGraph, Query, Relation, RelationKind};

fn parts(values: &[&str]) -> Vec<String> {
    values.iter().map(|value| value.to_string()).collect()
}

#[test]
fn adding_the_same_entity_twice_deduplicates_it() {
    let mut graph = EvidenceGraph::new();
    let entity = Entity::new(EntityId::new("file:/usr/bin/firefox"), EntityKind::Executable, "firefox");

    graph.add_entity(entity.clone());
    graph.add_entity(entity);

    assert_eq!(graph.entity_count(), 1);
}

#[test]
fn adding_same_entity_merges_metadata_and_improves_placeholder_name() {
    let mut graph = EvidenceGraph::new();
    let id = EntityId::new("process:42");
    graph.add_entity(Entity::new(id.clone(), EntityKind::Process, "PID 42"));

    let mut enriched = Entity::new(id.clone(), EntityKind::Process, "demo (42)");
    enriched.metadata.insert("cmdline".to_string(), "demo --flag".to_string());
    graph.add_entity(enriched);

    let entity = graph.entity(&id).unwrap();
    assert_eq!(entity.name, "demo (42)");
    assert_eq!(entity.metadata.get("cmdline").unwrap(), "demo --flag");
}

#[test]
fn adding_the_same_relation_merges_evidence() {
    let mut graph = EvidenceGraph::new();
    let from = EntityId::new("file:/run/current-system/sw/bin/firefox");
    let to = EntityId::new("file:/nix/store/abc-firefox/bin/firefox");

    graph.add_relation(Relation::new(
        from.clone(),
        to.clone(),
        RelationKind::ResolvesTo,
        Confidence::Inferred,
        vec![Evidence::new("filesystem", "PATH", "Executable was found in PATH", Confidence::Inferred)],
    ));
    graph.add_relation(Relation::new(
        from,
        to,
        RelationKind::ResolvesTo,
        Confidence::Exact,
        vec![Evidence::new(
            "filesystem",
            "std::fs::canonicalize",
            "Symlink target was canonicalized",
            Confidence::Exact,
        )],
    ));

    let relation = graph.relations().next().unwrap();
    assert_eq!(graph.relation_count(), 1);
    assert_eq!(relation.confidence, Confidence::Exact);
    assert_eq!(relation.evidence.len(), 2);
}

#[test]
fn parses_auto_query() {
    assert_eq!(Query::parse(&parts(&["firefox"])).unwrap(), Query::Auto("firefox".to_string()));
}

#[test]
fn parses_file_query() {
    assert_eq!(Query::parse(&parts(&["/usr/bin/bash"])).unwrap(), Query::File("/usr/bin/bash".into()));
}

#[test]
fn parses_store_path_query() {
    assert_eq!(
        Query::parse(&parts(&["/nix/store/abc-firefox"])).unwrap(),
        Query::StorePath("/nix/store/abc-firefox".into())
    );
}

#[test]
fn parses_structured_queries() {
    assert_eq!(Query::parse(&parts(&["package", "firefox"])).unwrap(), Query::Package("firefox".to_string()));
    assert_eq!(Query::parse(&parts(&["pid", "42"])).unwrap(), Query::Process(42));
    assert_eq!(Query::parse(&parts(&["service", "bluetooth"])).unwrap(), Query::Service("bluetooth".to_string()));
    assert_eq!(
        Query::parse(&parts(&["port", "udp:53317"])).unwrap(),
        Query::Port { number: 53317, protocol: Some(Protocol::Udp) }
    );
}
