//! Release orchestration for multi-package workspaces: classifies workspace
//! members into named groups, orders them by intra-workspace dependency,
//! drives a git commit/tag/push workflow, and plans registry publishing in
//! dependency order.

pub mod classify;
pub mod dag;
pub mod error;
pub mod exec;
pub mod git;
pub mod globs;
pub mod pkg;
pub mod publish;
pub mod text;
