//! Parallel bulk loading of tabular rows into a property graph store.
//!
//! The library holds the decisions of a load: how a row becomes the values a
//! write carries, how relationship rows are split into conflict-free groups,
//! how many writes may be in flight, and when a load is finished or aborted.
//! Reading files and talking to the store are left to the caller.
pub mod config;
pub mod error;
pub mod value;
pub mod row;
pub mod partition;
pub mod limiter;
pub mod schedule;
pub mod statement;

pub use config::Neo4jConfig;
pub use error::LoadError;
pub use value::{RawValue, StoreValue, convert_value};
pub use limiter::PermitPool;
pub use partition::{ColorGroup, group_sizes, partition};
pub use schedule::{Action, WaveScheduler};
pub use statement::{node_statement, relationship_statement};
pub use row::{Column, Row, Property, RelationshipWrite, properties, relationship_parts};

