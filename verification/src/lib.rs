//! Explains why something is present on a Linux system, as a graph of
//! entities, relations and the evidence for each relation.

pub mod backend;
pub mod cli;
pub mod domain;
pub mod engine;
pub mod evidence_laws;
pub mod match_laws;
pub mod prelude;

pub use cli::json::render as render_json;
pub use cli::plain::{render as render_plain, PlainRenderMode};
pub use domain::{
    Confidence, Entity, EntityId, EntityKind, Evidence, EvidenceGraph, Metadata, Protocol, Query, Relation,
    RelationKind, SyswhyError,
};
pub use engine::{Engine, Investigation};
