//! Co-authorship statistics for version-control histories.
//!
//! The library parses `Co-authored-by:` trailers out of commit messages,
//! normalizes and interns author names, and aggregates driver/navigator
//! pairings into per-author counts.
pub mod co_authors;
mod fx;
pub mod stringcache;
pub mod author_counts;
pub mod author_path_counts;
pub mod repo;
pub mod chart;
