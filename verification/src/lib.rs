//! A query engine over an in-memory collection of jazz standards: substring
//! search, conjunctive filtering, lookup by title, and aggregate statistics.

pub mod commands;
pub mod filtering;
pub mod models;
pub mod ranking;
pub mod search;
pub mod stats;
pub mod text;

pub use commands::{execute, Cli, Commands, Response};
pub use models::{Section, Segment, Song};
pub use ranking::{detailed_statistics, top_categories, CategoryCount, DetailedStatistics};
pub use search::{filter_songs, find_by_title, search_songs};
pub use stats::{distinct_values, summary_statistics, Field, SummaryStatistics, UnknownField};
