//! Aggregation of a linter's structured diagnostic stream: parsing of
//! diagnostic lines, crash-marker detection, canonical deduplication and
//! per-code summaries.

pub mod text;
pub mod record;
pub mod json;
pub mod parser;
pub mod order;
pub mod dedup;
pub mod summary;
pub mod crash;
pub mod run;
pub mod corpus;
