pub mod confidence;
pub mod entity;
pub mod error;
pub mod evidence;
pub mod relation;
pub mod graph;
pub mod graph_laws;
pub mod query;
pub mod text;
pub mod number;
pub mod scan;
pub mod keyed;

pub use confidence::Confidence;
pub use entity::{Entity, EntityId, EntityKind, Metadata};
pub use error::SyswhyError;
pub use evidence::Evidence;
pub use graph::EvidenceGraph;
pub use query::{Protocol, Query};
pub use relation::{Relation, RelationKind};
