//! `ud` — checks whether the dependencies a manifest declares are up to date,
//! and plans the edits that bring them current.

pub mod candidates;
pub mod contract;
pub mod index;
pub mod laws;
pub mod manifest;
pub mod model;
pub mod paint;
pub mod pipeline;
pub mod report;
pub mod resolve;
pub mod versioning;
pub mod text;
