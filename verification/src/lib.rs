//! Locates the revision that introduced the largest build-time regression.
//!
//! The library reduces noisy per-revision timing measurements into
//! comparable series, selects the revision interval with the largest
//! timing discontinuity, and drives an external bisection search with a
//! hysteresis classifier that tolerates build failures.

pub mod bisect;
pub mod cli;
pub mod commit_id;
pub mod commit_list;
pub mod data;
pub mod exec;
pub mod git;
pub mod opts;
pub mod series;
pub mod strutil;

pub use data::{BuildResult, Profile, RebuildType};
