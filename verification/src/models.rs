//! The records of the lineage store: generations, the relations between
//! them, and what they carry.

pub mod generation;

pub use generation::{
    ConfigPatch, Generation, Metrics, Relation, RelationType, Retrospective, RetrospectiveCase,
    Score,
};
