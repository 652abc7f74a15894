//! Common imports for front ends that run an investigation and inspect the
//! evidence graph.

pub use crate::{
    render_json, render_plain, Confidence, Engine, Entity, EntityId, EntityKind, Evidence, EvidenceGraph,
    Investigation, Metadata, PlainRenderMode, Protocol, Query, Relation, RelationKind, SyswhyError,
};
