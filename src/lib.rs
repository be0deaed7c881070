//! A line-oriented text search library: it decides where a pattern occurs in
//! each line and splits the line into plain and matched segments.

pub mod text;
pub mod segment;
pub mod record;
pub mod regex_engine;
pub mod matcher;
pub mod grep;
pub mod laws;

pub use grep::{Grep, GrepError, Source};
pub use matcher::LineMatcher;
pub use record::MatchRecord;
pub use segment::{annotate, Segment};
