//! Harvesting and checking of transit-line data: a sampling window over the
//! base line list, the merge of fetched per-line details, and a single
//! validation pass that finds duplicate lines and route sections and gathers
//! the schedule names that the timetables use.
pub mod enrich;
pub mod model;
pub mod pipeline;
pub mod sample;
pub mod validate;
