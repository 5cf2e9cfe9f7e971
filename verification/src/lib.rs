//! Audit of a repository's deleted crash regression tests against the set of
//! issues that are still open in the tracker.
//!
//! The `git` module reads a repository and finds the deletions, by the rules
//! of `history`, with `repo` and `dates` behind it for what the git and
//! calendar libraries do; `audit` groups and classifies the deletions;
//! `github` gathers the open issues and `cache` describes their persisted
//! snapshot; `report` writes what a front end prints; `text` and `paths`
//! hold the character-level helpers that the others share.

pub mod text;
pub mod paths;
pub mod dates;
pub mod repo;
pub mod git;
pub mod history;
pub mod audit;
pub mod cache;
pub mod github;
pub mod report;
