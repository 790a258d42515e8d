//! A consolidated view of a GitHub user's open pull requests and CI status: the verdicts
//! derived from GitHub's check rollups, which pull requests are listed and in what order,
//! how every remote string is encoded before it reaches a terminal, and which post-merge
//! failures are reported.
pub mod github;
pub mod model;
pub mod order;
pub mod render;
pub mod report;
pub mod text;
