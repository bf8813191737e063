//! Path-glob matching for group membership, and branch-glob matching for the
//! allow-branch rule, each behind one trusted wrapper.

use crate::error::Error;
use vstd::prelude::*;

verus! {

/// Names the result of `glob::Pattern::new`: whether the pattern compiles.
pub uninterp spec fn glob_ok(pattern: Seq<char>) -> bool;

/// Names the result of `glob::Pattern::matches` for the compiled pattern.
pub uninterp spec fn glob_match(pattern: Seq<char>, path: Seq<char>) -> bool;

/// Relies on `glob::Pattern::new` and `glob::Pattern::matches`: whether the
/// pattern compiles, and whether it matches the path, are functions of the
/// two strings alone. Matching backtracks recursively, so the pattern is
/// assumed to be of sane size, as any resource bound is.
#[verifier::external_body]
pub(crate) fn glob_matches(pattern: &str, path: &str) -> (r: Result<bool, Error>)
    ensures
        r is Ok <==> glob_ok(pattern@),
        r matches Ok(b) ==> b == glob_match(pattern@, path@),
        r matches Err(e) ==> e matches Error::Glob { msg: _ },
{
    match glob::Pattern::new(pattern) {
        Ok(p) => Ok(p.matches(path)),
        Err(e) => Err(Error::Glob { msg: e.msg.to_owned() }),
    }
}

/// Names the result of `globset::Glob::new`: whether the pattern compiles.
pub uninterp spec fn allow_glob_ok(pattern: Seq<char>) -> bool;

/// Names the result of `globset::GlobMatcher::is_match` for the matcher
/// compiled from the pattern.
pub uninterp spec fn allow_glob_match(pattern: Seq<char>, s: Seq<char>) -> bool;

/// Relies on `globset::Glob::new`, `globset::Glob::compile_matcher` and
/// `globset::GlobMatcher::is_match`: compilation and matching are functions
/// of the two strings alone. `compile_matcher` refuses a compiled automaton
/// over ten mebibytes by panicking, so the pattern is assumed to be of sane
/// size, as any resource bound is.
#[verifier::external_body]
pub(crate) fn allow_glob_matches(pattern: &str, s: &str) -> (r: Result<bool, Error>)
    ensures
        r is Ok <==> allow_glob_ok(pattern@),
        r matches Ok(b) ==> b == allow_glob_match(pattern@, s@),
        r matches Err(e) ==> e matches Error::Glob { msg: _ },
{
    match globset::Glob::new(pattern) {
        Ok(g) => Ok(g.compile_matcher().is_match(s)),
        Err(e) => Err(Error::Glob { msg: format!("{}", e) }),
    }
}

} // verus!
