//! Typed errors surfaced by classification, ordering, the git workflow and
//! the publish pipeline, plus the explicit debug-verbosity context that is
//! threaded through the pipeline entry points.

use crate::pkg::GroupName;
use vstd::prelude::*;

verus! {

/// Everything that can go wrong in the release pipeline.
///
/// Configuration errors are reported before any mutation happens; repository
/// state errors during validation; process errors carry the raw output of the
/// offending command; `PublishTimeout` is distinct from a plain process
/// failure so a caller can advise re-running the (idempotent) pipeline.
#[derive(Debug)]
pub enum Error {
    PackageNotInWorkspace { id: String, ws: String },
    PackageNotFound { id: String },
    PackageExistsInMultipleGroups {
        name: String,
        rel_path: String,
        inherits: bool,
        groups: Vec<GroupName>,
    },
    EmptyWorkspace,
    EmptyGroup { name: String },
    DuplicateGroupName { name: String },
    ReservedGroupName { name: String },
    InvalidGroupName { msg: String },
    UnmatchedCustomGroupPattern(Vec<(String, Vec<String>)>),
    UnmatchedExcludeGroupPattern(Vec<String>),
    DependencyCycle { name: String },
    Glob { msg: String },
    Publish(String),
    PublishTimeout,
    NotGit,
    NoCommits,
    NotBranch,
    NoRemote { remote: String, branch: String },
    BehindRemote { upstream: String, branch: String },
    BranchNotAllowed { branch: String, pattern: String },
    NotAdded(String, String),
    NotCommitted(String, String),
    NotTagged(String, String, String),
    UnterminatedTagMsgScope(String),
    NotPushed(String, String),
}

/// Explicit pipeline context: carries the debug-verbosity switch as a value
/// handed through entry points rather than as ambient global state.
pub struct Context {
    pub debug: bool,
}

impl Context {
    pub fn new() -> (c: Context)
        ensures
            !c.debug,
    {
        Context { debug: false }
    }
}

/// Read the debug-verbosity switch.
pub fn get_debug(ctx: &Context) -> (b: bool)
    ensures
        b == ctx.debug,
{
    ctx.debug
}

/// Turn the debug-verbosity switch on.
pub fn set_debug(ctx: &mut Context)
    ensures
        final(ctx).debug,
{
    ctx.debug = true;
}

} // verus!
