//! Classifies geometry bounding boxes into geohash buckets and tallies the
//! buckets of a file.
pub mod region;
pub mod path;
pub mod stats;
pub mod rows;
pub mod config;
pub mod report;

pub use path::hash_to_path;
