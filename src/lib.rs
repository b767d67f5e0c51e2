//! Verified core of a heterogeneous data-replication engine: the row and
//! position model, the value codecs, the bounded item queue, the pipeline
//! driver's decisions, the parallelizer's partitioning, the snapshot and
//! logical-replication extractors and the batching sinkers.

pub mod model;
pub mod queue;
pub mod monitor;
pub mod pipeline;
pub mod codec;
pub mod meta;
pub mod lsn;
pub mod cdc;
pub mod sinker;
pub mod snapshot;
pub mod parallelizer;
