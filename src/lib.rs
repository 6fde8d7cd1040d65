//! Bounded-concurrency fetch-and-aggregate: a verified batch state machine,
//! an admission gate, a result store over sled, and the text it reports.

pub mod admission;
pub mod batch;
pub mod store;
pub mod summary;
