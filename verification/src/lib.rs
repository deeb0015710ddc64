//! Building ArangoDB vector indexes and measuring their recall.

pub mod args;
pub mod autotune;
pub mod bench;
pub mod bench_run;
pub mod client;
pub mod datasets;
pub mod decimal;
pub mod double;
pub mod explain;
pub mod indexes;
pub mod json;
pub mod measure;
pub mod metric;
pub mod order;
pub mod params;
pub mod plan;
pub mod query;
pub mod ranges;
pub mod report;
pub mod setup;
pub mod setup_run;
pub mod text;
pub mod truth;
