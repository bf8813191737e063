//! The package model: one workspace member, group identity, workspace
//! metadata as plain values, and the declared grouping configuration.

use crate::error::Error;
use vstd::prelude::*;

verus! {

/// One workspace member, constructed once per run from workspace metadata and
/// immutable thereafter.
pub struct Pkg {
    /// Stable package id.
    pub id: String,
    /// Package name, unique within the workspace.
    pub name: String,
    /// Semantic version, in its canonical rendering.
    pub version: String,
    /// Absolute path of the package directory.
    pub location: String,
    /// Workspace-relative path, `.` for the workspace root.
    pub path: String,
    /// True iff the package declares an empty publish-target list.
    pub private: bool,
    /// Absolute path of the package's manifest file.
    pub manifest_path: String,
}

impl Clone for Pkg {
    fn clone(&self) -> (r: Pkg)
        ensures
            r == *self,
    {
        Pkg {
            id: self.id.clone(),
            name: self.name.clone(),
            version: self.version.clone(),
            location: self.location.clone(),
            path: self.path.clone(),
            private: self.private,
            manifest_path: self.manifest_path.clone(),
        }
    }
}

/// One workspace member as the metadata collaborator reports it.
pub struct MetaPkg {
    /// Stable package id.
    pub id: String,
    /// Package name.
    pub name: String,
    /// Semantic version, in its canonical rendering.
    pub version: String,
    /// Absolute path of the package directory.
    pub location: String,
    /// Workspace-relative path of the package directory, `.` for the root.
    pub path: String,
    /// Absolute path of the package's manifest file.
    pub manifest_path: String,
    /// The manifest's publish allow-list: `None` means unrestricted, an empty
    /// list means the package is private.
    pub publish: Option<Vec<String>>,
    /// Names of the package's declared dependencies.
    pub deps: Vec<String>,
    /// True iff the manifest declares its version as inherited from the
    /// workspace.
    pub inherits_version: bool,
}

impl MetaPkg {
    /// A package is private exactly when it declares an empty publish list.
    pub open spec fn spec_private(&self) -> bool {
        match self.publish {
            Some(l) => l@.len() == 0,
            None => false,
        }
    }

    pub fn private(&self) -> (r: bool)
        ensures
            r == self.spec_private(),
    {
        match &self.publish {
            Some(l) => l.len() == 0,
            None => false,
        }
    }

    /// The `Pkg` value a classified member carries.
    pub open spec fn spec_pkg(&self) -> Pkg {
        Pkg {
            id: self.id,
            name: self.name,
            version: self.version,
            location: self.location,
            path: self.path,
            private: self.spec_private(),
            manifest_path: self.manifest_path,
        }
    }

    pub fn to_pkg(&self) -> (r: Pkg)
        ensures
            r == self.spec_pkg(),
    {
        Pkg {
            id: self.id.clone(),
            name: self.name.clone(),
            version: self.version.clone(),
            location: self.location.clone(),
            path: self.path.clone(),
            private: self.private(),
            manifest_path: self.manifest_path.clone(),
        }
    }
}

/// All workspace metadata the pipeline consumes.
pub struct WorkspaceMeta {
    /// Absolute path of the workspace root.
    pub workspace_root: String,
    /// Ids of the workspace members, in metadata order.
    pub members: Vec<String>,
    /// Every package the metadata describes.
    pub packages: Vec<MetaPkg>,
}

/// One declared custom group: a name, its ordered member glob patterns, and
/// an optional group-wide version override.
pub struct GroupSpec {
    pub name: String,
    pub members: Vec<String>,
    pub version: Option<String>,
}

/// The declared exclusion group: ordered member glob patterns.
pub struct ExcludeSpec {
    pub members: Vec<String>,
}

/// Declared grouping configuration, consumed as already-validated structured
/// data.
pub struct WorkspaceConfig {
    /// Workspace-wide version override for the default group.
    pub version: Option<String>,
    /// Declared custom groups, in declaration order.
    pub groups: Vec<GroupSpec>,
    /// The exclusion group, when one is declared.
    pub exclude: Option<ExcludeSpec>,
    /// Pattern of branches the release may run on.
    pub allow_branch: Option<String>,
    /// Suppress per-package tags.
    pub no_individual_tags: Option<bool>,
}

/// Group identity: the two reserved groups, or a validated custom name.
#[derive(Debug)]
pub enum GroupName {
    Default,
    Excluded,
    Custom(String),
}

/// A custom group name must not contain `:` or a space.
pub open spec fn group_name_ok(s: Seq<char>) -> bool {
    forall|i: int| 0 <= i < s.len() ==> s[i] != ':' && s[i] != ' '
}

/// Message for a `:` found in a candidate group name.
pub open spec fn invalid_colon_msg(s: Seq<char>) -> Seq<char> {
    "invalid character `:` in group name: `"@ + s + "`"@
}

/// Message for a space found in a candidate group name.
pub open spec fn invalid_space_msg(s: Seq<char>) -> Seq<char> {
    "unexpected space in group name: `"@ + s + "`"@
}

impl GroupName {
    /// Smart constructor for custom names: reserved literals and names with
    /// invalid characters cannot exist as `Custom` values.
    pub fn new(name: &str) -> (r: Result<GroupName, Error>)
        ensures
            (name@ == "default"@ || name@ == "excluded"@) ==> (r matches Err(
                Error::ReservedGroupName { name: n },
            ) && n@ == name@),
            (name@ != "default"@ && name@ != "excluded"@ && !group_name_ok(name@)) ==> (r matches
                Err(Error::InvalidGroupName { msg: m }) && exists|j: int|
                0 <= j < name@.len() && (#[trigger] name@[j] == ':' || name@[j] == ' ') && (forall|
                    t: int,
                |
                    0 <= t < j ==> name@[t] != ':' && name@[t] != ' ') && m@ == (if name@[j] == ':' {
                    invalid_colon_msg(name@)
                } else {
                    invalid_space_msg(name@)
                })),
            (name@ != "default"@ && name@ != "excluded"@ && group_name_ok(name@)) ==> (r matches Ok(
                g,
            ) && g matches GroupName::Custom(s) && s@ == name@),
    {
        if crate::text::str_eq(name, "default") || crate::text::str_eq(name, "excluded") {
            return Err(Error::ReservedGroupName { name: name.to_owned() });
        }
        match Self::validate(name) {
            Err(msg) => Err(Error::InvalidGroupName { msg }),
            Ok(()) => Ok(GroupName::Custom(name.to_owned())),
        }
    }

    /// Scan a candidate custom name; the first offending character decides
    /// the message.
    pub fn validate(s: &str) -> (r: Result<(), String>)
        ensures
            r is Ok <==> group_name_ok(s@),
            r matches Err(m) ==> exists|j: int|
                0 <= j < s@.len() && (#[trigger] s@[j] == ':' || s@[j] == ' ') && (forall|t: int|
                    0 <= t < j ==> s@[t] != ':' && s@[t] != ' ') && m@ == (if s@[j] == ':' {
                    invalid_colon_msg(s@)
                } else {
                    invalid_space_msg(s@)
                }),
    {
        let v = crate::text::str_chars(s);
        let mut i: usize = 0;
        while i < v.len()
            invariant
                i <= v@.len(),
                v@ == s@,
                forall|t: int| 0 <= t < i ==> s@[t] != ':' && s@[t] != ' ',
            decreases v.len() - i,
        {
            if v[i] == ':' {
                let mut msg = crate::text::str_chars("invalid character `:` in group name: `");
                crate::text::append_chars(&mut msg, &v);
                crate::text::append_str(&mut msg, "`");
                return Err(crate::text::chars_string(&msg));
            }
            if v[i] == ' ' {
                let mut msg = crate::text::str_chars("unexpected space in group name: `");
                crate::text::append_chars(&mut msg, &v);
                crate::text::append_str(&mut msg, "`");
                return Err(crate::text::chars_string(&msg));
            }
            i = i + 1;
        }
        Ok(())
    }

    /// The name as it is written in configuration and diagnostics.
    pub fn as_text(&self) -> (r: String)
        ensures
            r@ == self.spec_text(),
    {
        match self {
            GroupName::Default => "default".to_owned(),
            GroupName::Excluded => "excluded".to_owned(),
            GroupName::Custom(s) => s.clone(),
        }
    }

    /// The characters of the name.
    pub open spec fn spec_text(&self) -> Seq<char> {
        match self {
            GroupName::Default => "default"@,
            GroupName::Excluded => "excluded"@,
            GroupName::Custom(s) => s@,
        }
    }
}

/// Copy an optional version override.
pub fn clone_opt_string(o: &Option<String>) -> (r: Option<String>)
    ensures
        r == *o,
{
    match o {
        None => None,
        Some(s) => Some(s.clone()),
    }
}

/// A mapping from group identity to its optional version override and its
/// member packages: the default group first, then the custom groups in
/// declaration order, then the exclusion group last.
pub struct WorkspaceGroups {
    pub named_groups: Vec<(GroupName, Option<String>, Vec<Pkg>)>,
}

impl WorkspaceGroups {
    /// The reserved groups always exist: the default group is first and the
    /// exclusion group is last, with custom groups between them.
    pub open spec fn wf(&self) -> bool {
        &&& self.named_groups@.len() >= 2
        &&& self.named_groups@[0].0 is Default
        &&& self.named_groups@[self.named_groups@.len() - 1].0 is Excluded
        &&& forall|k: int|
            0 < k < self.named_groups@.len() - 1 ==> (#[trigger] self.named_groups@[k].0)
                is Custom
    }

    /// The flattened view `into_iter` hands out: each package paired with its
    /// group identity and version override, default group first, custom
    /// groups next, the exclusion group last.
    pub open spec fn spec_flat(gs: Seq<(GroupName, Option<String>, Vec<Pkg>)>) -> Seq<
        ((GroupName, Option<String>), Pkg),
    >
        decreases gs.len(),
    {
        if gs.len() == 0 {
            Seq::empty()
        } else {
            Self::spec_flat(gs.drop_last()) + Seq::new(
                gs.last().2@.len(),
                |i: int| ((gs.last().0, gs.last().1), gs.last().2@[i]),
            )
        }
    }

    /// Flatten the groups into (identity, package) pairs.
    pub fn into_iter(self) -> (r: Vec<((GroupName, Option<String>), Pkg)>)
        ensures
            r@ == Self::spec_flat(self.named_groups@),
    {
        let mut r: Vec<((GroupName, Option<String>), Pkg)> = Vec::new();
        let mut k: usize = 0;
        proof {
            assert(self.named_groups@.take(0) =~= Seq::<(GroupName, Option<String>, Vec<Pkg>)>::empty());
        }
        while k < self.named_groups.len()
            invariant
                k <= self.named_groups@.len(),
                r@ == Self::spec_flat(self.named_groups@.take(k as int)),
            decreases self.named_groups.len() - k,
        {
            let ghost pre = self.named_groups@.take(k as int);
            let entry = &self.named_groups[k];
            let mut i: usize = 0;
            while i < entry.2.len()
                invariant
                    k < self.named_groups@.len(),
                    i <= entry.2@.len(),
                    entry == self.named_groups@[k as int],
                    r@ == Self::spec_flat(self.named_groups@.take(k as int)) + Seq::new(
                        i as nat,
                        |t: int| ((entry.0, entry.1), entry.2@[t]),
                    ),
                decreases entry.2.len() - i,
            {
                let name = entry.0.clone();
                let ver = clone_opt_string(&entry.1);
                let pkg = entry.2[i].clone();
                r.push(((name, ver), pkg));
                proof {
                    assert(r@ =~= Self::spec_flat(self.named_groups@.take(k as int)) + Seq::new(
                        (i + 1) as nat,
                        |t: int| ((entry.0, entry.1), entry.2@[t]),
                    ));
                }
                i = i + 1;
            }
            proof {
                assert(self.named_groups@.take(k + 1).drop_last() =~= pre);
                assert(self.named_groups@.take(k + 1).last() == self.named_groups@[k as int]);
                assert(Seq::new(entry.2@.len(), |t: int| ((entry.0, entry.1), entry.2@[t]))
                    =~= Seq::new(
                    self.named_groups@.take(k + 1).last().2@.len(),
                    |i: int|
                        (
                            (
                                self.named_groups@.take(k + 1).last().0,
                                self.named_groups@.take(k + 1).last().1,
                            ),
                            self.named_groups@.take(k + 1).last().2@[i],
                        ),
                ));
            }
            k = k + 1;
        }
        proof {
            assert(self.named_groups@.take(self.named_groups@.len() as int) =~= self.named_groups@);
        }
        r
    }
}

impl core::str::FromStr for GroupName {
    type Err = String;

    fn from_str(s: &str) -> Result<GroupName, String> {
        match GroupName::validate(s) {
            Err(msg) => Err(msg),
            Ok(()) => {
                if crate::text::str_eq(s, "default") {
                    Ok(GroupName::Default)
                } else if crate::text::str_eq(s, "excluded") {
                    Ok(GroupName::Excluded)
                } else {
                    Ok(GroupName::Custom(s.to_owned()))
                }
            },
        }
    }
}

impl Clone for GroupName {
    fn clone(&self) -> (r: GroupName)
        ensures
            r == *self,
    {
        match self {
            GroupName::Default => GroupName::Default,
            GroupName::Excluded => GroupName::Excluded,
            GroupName::Custom(s) => GroupName::Custom(s.clone()),
        }
    }
}

impl PartialEq for GroupName {
    fn eq(&self, other: &GroupName) -> (r: bool) {
        match (self, other) {
            (GroupName::Default, GroupName::Default) => true,
            (GroupName::Excluded, GroupName::Excluded) => true,
            (GroupName::Custom(a), GroupName::Custom(b)) => crate::text::str_eq(
                a.as_str(),
                b.as_str(),
            ),
            _ => false,
        }
    }
}

impl vstd::std_specs::cmp::PartialEqSpecImpl for GroupName {
    open spec fn obeys_eq_spec() -> bool {
        true
    }

    open spec fn eq_spec(&self, other: &GroupName) -> bool {
        match (self, other) {
            (GroupName::Default, GroupName::Default) => true,
            (GroupName::Excluded, GroupName::Excluded) => true,
            (GroupName::Custom(a), GroupName::Custom(b)) => a@ == b@,
            _ => false,
        }
    }
}

} // verus!
