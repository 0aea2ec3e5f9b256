//! Segment compaction for a columnar table format: block and segment
//! metadata, statistics aggregation, the greedy segment accumulator and the
//! optimistic commit protocol, together with a few query-service helpers.

pub mod accumulator;
pub mod cache;
pub mod compaction;
pub mod endpoint;
pub mod error;
pub mod group_by_final;
pub mod location;
pub mod loggers;
pub mod meta;
pub mod mutator;
pub mod sha2hash;
pub mod snapshot;
pub mod stage;
pub mod statistics;
pub mod table;
pub mod text;
pub mod unsetting;
