//! The per-package command runner: the packages are walked in dependency
//! order (see `dag`) and one command runs in each package directory; a
//! non-zero exit aborts the walk unless bailing is off.

use vstd::prelude::*;

verus! {

/// Options of the per-package command runner: it walks the packages in
/// dependency order and runs one command in each package directory.
pub struct Exec {
    /// Continue despite a non-zero exit in a given package.
    pub no_bail: bool,
    /// The command and its arguments.
    pub args: Vec<String>,
}

impl Exec {
    /// Does this command outcome abort the walk?
    pub fn bails(&self, success: bool) -> (r: bool)
        ensures
            r == (!self.no_bail && !success),
    {
        !self.no_bail && !success
    }
}

} // verus!
