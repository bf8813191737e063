//! The git release state machine.
//!
//! Every step is a pure transition: it takes the options, the state reached
//! so far and the output of the last git command, and returns either the next
//! git command to run (with the state to resume from), a final result, or a
//! typed error. Running the commands is the caller's business; the decisions
//! are all here, and all verified.

use crate::error::Error;
use crate::globs::{allow_glob_match, allow_glob_matches, allow_glob_ok};
use crate::pkg::WorkspaceConfig;
use crate::text::{has_line, seq_contains, spec_replace, str_views};
use vstd::prelude::*;

verus! {

/// Git workflow options, as the command line hands them over.
pub struct GitOpt {
    /// Do not commit version changes.
    pub no_git_commit: bool,
    /// Pattern of branches to allow; the workspace configuration or the
    /// literal `master` applies when absent.
    pub allow_branch: Option<String>,
    /// Amend the existing commit instead of creating a new one.
    pub amend: bool,
    /// Custom commit message template.
    pub message: Option<String>,
    /// Do not tag the generated commit at all.
    pub no_git_tag: bool,
    /// Do not tag individual package versions.
    pub no_individual_tags: bool,
    /// Do not create a workspace-wide tag.
    pub no_global_tag: bool,
    /// Also tag individual versions of private packages.
    pub tag_private: bool,
    /// Prefix for the workspace-wide tag.
    pub tag_prefix: String,
    /// Prefix for individual tags; `%n` stands for the package name.
    pub individual_tag_prefix: String,
    /// Workspace-wide tag message templates.
    pub tag_msg: Vec<String>,
    /// Message template for individual tags.
    pub individual_tag_msg: Option<String>,
    /// Do not push the generated commit and tags.
    pub no_git_push: bool,
    /// The remote to push to.
    pub git_remote: String,
    /// Do not perform any git operation at all.
    pub no_git: bool,
}

/// Validation progress: which command's output the next step consumes.
pub enum ValidatePhase {
    /// Counting revisions.
    RevCount,
    /// Reading the current branch.
    Branch,
    /// Listing the remote tracking ref of the branch.
    RemoteRef { branch: String },
    /// Refreshing the remote refs.
    RemoteUpdate { branch: String },
    /// Counting commits the remote has that the local branch lacks behind.
    Behind { branch: String },
}

/// What validation asks for next: a final verdict, or a git command to run
/// and the phase to resume from with its output.
pub enum ValidateStep {
    Done { branch: Option<String> },
    Run { args: Vec<String>, phase: ValidatePhase },
}

/// No git action is required by the options.
pub open spec fn spec_no_git_needed(opt: GitOpt) -> bool {
    opt.no_git_push || (opt.no_git_commit && (opt.no_git_tag || (opt.no_global_tag
        && opt.no_individual_tags)))
}

/// The allow-branch pattern in force: the option, else the configured one,
/// else the literal `master`.
pub open spec fn spec_allow_branch(opt: GitOpt, config: WorkspaceConfig) -> Seq<char> {
    match opt.allow_branch {
        Some(a) => a@,
        None => match config.allow_branch {
            Some(c) => c@,
            None => "master"@,
        },
    }
}

/// The branch name tested against the allow pattern: `main` counts as
/// `master` when the pattern is exactly `master`.
pub open spec fn spec_test_branch(branch: Seq<char>, allow: Seq<char>) -> Seq<char> {
    if branch == "main"@ && allow == "master"@ {
        "master"@
    } else {
        branch
    }
}

impl GitOpt {
    /// Start validating the repository state: nothing to do when git is off,
    /// else count the revisions first.
    pub fn validate(&self) -> (r: ValidateStep)
        ensures
            self.no_git ==> (r matches ValidateStep::Done { branch } && branch is None),
            !self.no_git ==> (r matches ValidateStep::Run { args, phase } && phase
                is RevCount && str_views(args@) =~= seq![
                "rev-list"@,
                "--count"@,
                "--all"@,
                "--max-count=1"@,
            ]),
    {
        if self.no_git {
            return ValidateStep::Done { branch: None };
        }
        let args: Vec<String> = vec![
            "rev-list".to_owned(),
            "--count".to_owned(),
            "--all".to_owned(),
            "--max-count=1".to_owned(),
        ];
        ValidateStep::Run { args, phase: ValidatePhase::RevCount }
    }

    /// One validation transition, fed with the last command's trimmed output.
    pub fn validate_step(
        &self,
        config: &WorkspaceConfig,
        phase: ValidatePhase,
        success: bool,
        out: &str,
        err: &str,
    ) -> (r: Result<ValidateStep, Error>)
        ensures
            phase is RevCount ==> {
                if seq_contains(err@, "not a git repository"@) {
                    r matches Err(e) && e is NotGit
                } else if out@ == "0"@ {
                    r matches Err(e) && e is NoCommits
                } else if spec_no_git_needed(*self) {
                    r matches Ok(s) && (s matches ValidateStep::Done { branch } && branch is None)
                } else {
                    r matches Ok(s) && (s matches ValidateStep::Run { args, phase: ph } && ph
                        is Branch && str_views(args@) =~= seq![
                        "rev-parse"@,
                        "--abbrev-ref"@,
                        "HEAD"@,
                    ])
                }
            },
            phase is Branch ==> {
                if out@ == "HEAD"@ {
                    if self.no_git_commit {
                        r matches Ok(s) && (s matches ValidateStep::Done { branch } && branch
                            is None)
                    } else {
                        r matches Err(e) && e is NotBranch
                    }
                } else {
                    let allow = spec_allow_branch(*self, *config);
                    let test = spec_test_branch(out@, allow);
                    if !allow_glob_ok(allow) {
                        r matches Err(e) && e matches Error::Glob { msg: _ }
                    } else if !allow_glob_match(allow, test) {
                        r matches Err(e) && (e matches Error::BranchNotAllowed { branch, pattern }
                            && branch@ == out@ && pattern@ == allow)
                    } else {
                        r matches Ok(s) && (s matches ValidateStep::Run { args, phase: ph } && (ph
                            matches ValidatePhase::RemoteRef { branch } && branch@ == out@)
                            && str_views(args@) =~= seq![
                            "for-each-ref"@,
                            "--format='%(refname)'"@,
                            "refs/remotes/"@ + self.git_remote@ + "/"@ + out@,
                        ])
                    }
                }
            },
            phase matches ValidatePhase::RemoteRef { branch: br } ==> {
                if out@.len() == 0 {
                    r matches Err(e) && (e matches Error::NoRemote { remote, branch } && remote
                        == self.git_remote && branch == br)
                } else {
                    r matches Ok(s) && (s matches ValidateStep::Run { args, phase: ph } && (ph
                        matches ValidatePhase::RemoteUpdate { branch } && branch == br)
                        && str_views(args@) =~= seq![
                        "remote"@,
                        "update"@,
                        self.git_remote@,
                    ])
                }
            },
            phase matches ValidatePhase::RemoteUpdate { branch: br } ==> r matches Ok(s) && (s
                matches ValidateStep::Run { args, phase: ph } && (ph
                matches ValidatePhase::Behind { branch } && branch == br) && str_views(args@)
                =~= seq![
                "rev-list"@,
                "--left-only"@,
                "--count"@,
                self.git_remote@ + "/"@ + br@ + "..."@ + br@,
            ]),
            phase matches ValidatePhase::Behind { branch: br } ==> {
                if out@ != "0"@ {
                    r matches Err(e) && (e matches Error::BehindRemote { upstream, branch }
                        && branch == br && upstream@ == self.git_remote@ + "/"@ + br@)
                } else {
                    r matches Ok(s) && (s matches ValidateStep::Done { branch } && (branch matches
                        Some(b) && b == br))
                }
            },
    {
        match phase {
            ValidatePhase::RevCount => {
                if crate::text::str_contains(err, "not a git repository") {
                    return Err(Error::NotGit);
                }
                if crate::text::str_eq(out, "0") {
                    return Err(Error::NoCommits);
                }
                if self.no_git_push || (self.no_git_commit && (self.no_git_tag || (
                self.no_global_tag && self.no_individual_tags))) {
                    return Ok(ValidateStep::Done { branch: None });
                }
                let args: Vec<String> = vec![
                    "rev-parse".to_owned(),
                    "--abbrev-ref".to_owned(),
                    "HEAD".to_owned(),
                ];
                Ok(ValidateStep::Run { args, phase: ValidatePhase::Branch })
            },
            ValidatePhase::Branch => {
                if crate::text::str_eq(out, "HEAD") {
                    if self.no_git_commit {
                        return Ok(ValidateStep::Done { branch: None });
                    }
                    return Err(Error::NotBranch);
                }
                let allow: &String = match &self.allow_branch {
                    Some(a) => a,
                    None => match &config.allow_branch {
                        Some(c) => c,
                        None => {
                            return self.branch_checked(out, "master");
                        },
                    },
                };
                let allow_str = allow.clone();
                self.branch_checked(out, allow_str.as_str())
            },
            ValidatePhase::RemoteRef { branch } => {
                if out.is_empty() {
                    return Err(
                        Error::NoRemote { remote: self.git_remote.clone(), branch },
                    );
                }
                let args: Vec<String> = vec![
                    "remote".to_owned(),
                    "update".to_owned(),
                    self.git_remote.clone(),
                ];
                Ok(ValidateStep::Run { args, phase: ValidatePhase::RemoteUpdate { branch } })
            },
            ValidatePhase::RemoteUpdate { branch } => {
                let mut range = crate::text::str_chars(self.git_remote.as_str());
                crate::text::append_str(&mut range, "/");
                crate::text::append_str(&mut range, branch.as_str());
                crate::text::append_str(&mut range, "...");
                crate::text::append_str(&mut range, branch.as_str());
                let args: Vec<String> = vec![
                    "rev-list".to_owned(),
                    "--left-only".to_owned(),
                    "--count".to_owned(),
                    crate::text::chars_string(&range),
                ];
                Ok(ValidateStep::Run { args, phase: ValidatePhase::Behind { branch } })
            },
            ValidatePhase::Behind { branch } => {
                if !crate::text::str_eq(out, "0") {
                    let mut upstream = crate::text::str_chars(self.git_remote.as_str());
                    crate::text::append_str(&mut upstream, "/");
                    crate::text::append_str(&mut upstream, branch.as_str());
                    return Err(
                        Error::BehindRemote {
                            upstream: crate::text::chars_string(&upstream),
                            branch,
                        },
                    );
                }
                Ok(ValidateStep::Done { branch: Some(branch) })
            },
        }
    }

    /// Match the branch against the allow pattern; on success ask for the
    /// remote tracking ref of the branch.
    fn branch_checked(&self, branch: &str, allow: &str) -> (r: Result<ValidateStep, Error>)
        requires
            branch@ != "HEAD"@,
        ensures
            ({
                let test = spec_test_branch(branch@, allow@);
                if !allow_glob_ok(allow@) {
                    r matches Err(e) && e matches Error::Glob { msg: _ }
                } else if !allow_glob_match(allow@, test) {
                    r matches Err(e) && (e matches Error::BranchNotAllowed { branch: b, pattern }
                        && b@ == branch@ && pattern@ == allow@)
                } else {
                    r matches Ok(s) && (s matches ValidateStep::Run { args, phase: ph } && (ph
                        matches ValidatePhase::RemoteRef { branch: b } && b@ == branch@)
                        && str_views(args@) =~= seq![
                        "for-each-ref"@,
                        "--format='%(refname)'"@,
                        "refs/remotes/"@ + self.git_remote@ + "/"@ + branch@,
                    ])
                }
            }),
    {
        let test: String = if crate::text::str_eq(branch, "main") && crate::text::str_eq(
            allow,
            "master",
        ) {
            "master".to_owned()
        } else {
            branch.to_owned()
        };
        let matched = match allow_glob_matches(allow, test.as_str()) {
            Err(e) => {
                return Err(e);
            },
            Ok(b) => b,
        };
        if !matched {
            return Err(
                Error::BranchNotAllowed { branch: branch.to_owned(), pattern: allow.to_owned() },
            );
        }
        let mut refname = crate::text::str_chars("refs/remotes/");
        crate::text::append_str(&mut refname, self.git_remote.as_str());
        crate::text::append_str(&mut refname, "/");
        crate::text::append_str(&mut refname, branch);
        let args: Vec<String> = vec![
            "for-each-ref".to_owned(),
            "--format='%(refname)'".to_owned(),
            crate::text::chars_string(&refname),
        ];
        Ok(
            ValidateStep::Run {
                args,
                phase: ValidatePhase::RemoteRef { branch: branch.to_owned() },
            },
        )
    }
}


/// Commit progress: staging, then committing.
pub enum CommitPhase {
    Add,
    Commit,
}

/// What the commit workflow asks for next.
pub enum CommitStep {
    Done,
    Run { args: Vec<String>, phase: CommitPhase },
}

/// The views of a list of (name, version) pairs.
pub open spec fn pair_views(v: Seq<(String, String)>) -> Seq<(Seq<char>, Seq<char>)> {
    Seq::new(v.len(), |i: int| (v[i].0@, v[i].1@))
}

/// The `name@version` lines of the commit message trailer, one per planned
/// package, separated by newlines.
pub open spec fn spec_version_lines(pairs: Seq<(Seq<char>, Seq<char>)>) -> Seq<char>
    decreases pairs.len(),
{
    if pairs.len() == 0 {
        Seq::empty()
    } else if pairs.len() == 1 {
        pairs[0].0 + "@"@ + pairs[0].1
    } else {
        spec_version_lines(pairs.drop_last()) + "\n"@ + pairs.last().0 + "@"@ + pairs.last().1
    }
}

/// The commit message before `%v` substitution: the template, then the
/// machine-readable `name@version` manifest, then the tool trailer.
pub open spec fn spec_commit_msg(template: Seq<char>, pairs: Seq<(Seq<char>, Seq<char>)>) -> Seq<
    char,
> {
    template + "\n\n"@ + spec_version_lines(pairs) + "\n\nGenerated by cargo-workspaces"@
}

/// What `%v` stands for: the unified version, or the marker for
/// independently versioned packages.
pub open spec fn spec_version_token(new_version: Option<String>) -> Seq<char> {
    match new_version {
        Some(v) => v@,
        None => "independent packages"@,
    }
}

/// The full commit message: the chosen template with the manifest appended
/// and `%v` substituted everywhere.
pub open spec fn spec_full_commit_msg(
    opt: GitOpt,
    new_version: Option<String>,
    pairs: Seq<(Seq<char>, Seq<char>)>,
) -> Seq<char> {
    let template = match opt.message {
        Some(m) => m@,
        None => "Release %v"@,
    };
    spec_replace(spec_commit_msg(template, pairs), "%v"@, spec_version_token(new_version))
}

impl GitOpt {
    /// The commit message body for a template and a version plan.
    pub fn commit_msg(&self, msg: &str, new_versions: &Vec<(String, String)>) -> (r: String)
        ensures
            r@ == spec_commit_msg(msg@, pair_views(new_versions@)),
    {
        let ghost pv = pair_views(new_versions@);
        let mut out = crate::text::str_chars(msg);
        crate::text::append_str(&mut out, "\n\n");
        let mut lines: Vec<char> = Vec::new();
        let mut i: usize = 0;
        proof {
            assert(pv.take(0) =~= Seq::<(Seq<char>, Seq<char>)>::empty());
        }
        while i < new_versions.len()
            invariant
                i <= new_versions@.len(),
                pv == pair_views(new_versions@),
                lines@ == spec_version_lines(pv.take(i as int)),
            decreases new_versions.len() - i,
        {
            proof {
                assert(pv.take(i + 1).drop_last() =~= pv.take(i as int));
                assert(pv.take(i + 1).last() == pv[i as int]);
            }
            if i > 0 {
                crate::text::append_str(&mut lines, "\n");
            }
            crate::text::append_str(&mut lines, new_versions[i].0.as_str());
            crate::text::append_str(&mut lines, "@");
            crate::text::append_str(&mut lines, new_versions[i].1.as_str());
            i = i + 1;
        }
        proof {
            assert(pv.take(pv.len() as int) =~= pv);
        }
        crate::text::append_chars(&mut out, &lines);
        crate::text::append_str(&mut out, "\n\nGenerated by cargo-workspaces");
        crate::text::chars_string(&out)
    }

    /// Start the commit workflow: nothing to do when commits are off, else
    /// stage the modified tracked files.
    pub fn commit(&self) -> (r: CommitStep)
        ensures
            (self.no_git || self.no_git_commit) ==> r is Done,
            !(self.no_git || self.no_git_commit) ==> (r matches CommitStep::Run { args, phase }
                && phase is Add && str_views(args@) =~= seq!["add"@, "-u"@]),
    {
        if self.no_git || self.no_git_commit {
            return CommitStep::Done;
        }
        let args: Vec<String> = vec!["add".to_owned(), "-u".to_owned()];
        CommitStep::Run { args, phase: CommitPhase::Add }
    }

    /// One commit transition: failed staging is `NotAdded`; successful
    /// staging asks for the commit, amending or with the built message; a
    /// failed commit is `NotCommitted`.
    pub fn commit_step(
        &self,
        new_version: &Option<String>,
        new_versions: &Vec<(String, String)>,
        phase: CommitPhase,
        success: bool,
        out: &str,
        err: &str,
    ) -> (r: Result<CommitStep, Error>)
        ensures
            phase is Add && !success ==> (r matches Err(e) && (e matches Error::NotAdded(o, e2)
                && o@ == out@ && e2@ == err@)),
            phase is Add && success && self.amend ==> (r matches Ok(s) && (s
                matches CommitStep::Run { args, phase: p2 } && p2 is Commit && str_views(args@)
                =~= seq!["commit"@, "--amend"@, "--no-edit"@])),
            phase is Add && success && !self.amend ==> (r matches Ok(s) && (s
                matches CommitStep::Run { args, phase: p2 } && p2 is Commit && args@.len() == 3
                && args@[0]@ == "commit"@ && args@[1]@ == "-m"@ && args@[2]@
                == spec_full_commit_msg(*self, *new_version, pair_views(new_versions@)))),
            phase is Commit && success ==> (r matches Ok(s) && s is Done),
            phase is Commit && !success ==> (r matches Err(e) && (e matches Error::NotCommitted(
                o,
                e2,
            ) && o@ == out@ && e2@ == err@)),
    {
        match phase {
            CommitPhase::Add => {
                if !success {
                    return Err(Error::NotAdded(out.to_owned(), err.to_owned()));
                }
                if self.amend {
                    let args: Vec<String> = vec![
                        "commit".to_owned(),
                        "--amend".to_owned(),
                        "--no-edit".to_owned(),
                    ];
                    return Ok(CommitStep::Run { args, phase: CommitPhase::Commit });
                }
                let template: String = match &self.message {
                    Some(m) => m.clone(),
                    None => "Release %v".to_owned(),
                };
                let body = self.commit_msg(template.as_str(), new_versions);
                let token: String = match new_version {
                    Some(v) => v.clone(),
                    None => "independent packages".to_owned(),
                };
                let bodyv = crate::text::str_chars(body.as_str());
                let pat = crate::text::str_chars("%v");
                let rep = crate::text::str_chars(token.as_str());
                let full = crate::text::replace_chars(&bodyv, &pat, &rep);
                let args: Vec<String> = vec![
                    "commit".to_owned(),
                    "-m".to_owned(),
                    crate::text::chars_string(&full),
                ];
                Ok(CommitStep::Run { args, phase: CommitPhase::Commit })
            },
            CommitPhase::Commit => {
                if !success {
                    return Err(Error::NotCommitted(out.to_owned(), err.to_owned()));
                }
                Ok(CommitStep::Done)
            },
        }
    }
}

/// A planned tag: its name and its messages.
pub struct TagPlan {
    pub tag: String,
    pub msgs: Vec<String>,
}

/// Tag-creation progress: listing the existing tags, then creating.
pub enum TagPhase {
    List,
    Create,
}

/// What tag creation asks for next. `Done { created: false }` means the tag
/// already existed and nothing was mutated.
pub enum TagStep {
    Done { created: bool },
    Run { args: Vec<String>, phase: TagPhase },
}

/// Arguments of the annotated-tag creation command.
pub open spec fn spec_tag_args(tag: Seq<char>, msgs: Seq<Seq<char>>) -> Seq<Seq<char>>
    decreases msgs.len(),
{
    if msgs.len() == 0 {
        seq!["tag"@, tag, "-a"@]
    } else {
        spec_tag_args(tag, msgs.drop_last()) + seq!["-m"@, msgs.last()]
    }
}

impl GitOpt {
    /// Start tag creation: list the existing tags first.
    pub fn tag(&self) -> (r: TagStep)
        ensures
            r matches TagStep::Run { args, phase } && phase is List && str_views(args@)
                =~= seq!["tag"@],
    {
        let args: Vec<String> = vec!["tag".to_owned()];
        TagStep::Run { args, phase: TagPhase::List }
    }

    /// One tag-creation transition. Tagging is idempotent: a tag already
    /// listed is not created again, and no further git command is issued.
    pub fn tag_step(
        &self,
        tag: &String,
        msgs: &Vec<String>,
        phase: TagPhase,
        success: bool,
        out: &str,
        err: &str,
    ) -> (r: Result<TagStep, Error>)
        ensures
            phase is List && has_line(out@, tag@) ==> (r matches Ok(s) && (s
                matches TagStep::Done { created } && !created)),
            phase is List && !has_line(out@, tag@) ==> (r matches Ok(s) && (s
                matches TagStep::Run { args, phase: p2 } && p2 is Create && str_views(args@)
                =~= spec_tag_args(tag@, str_views(msgs@)))),
            phase is Create && success ==> (r matches Ok(s) && (s matches TagStep::Done { created }
                && created)),
            phase is Create && !success ==> (r matches Err(e) && (e matches Error::NotTagged(
                t,
                o,
                e2,
            ) && t@ == tag@ && o@ == out@ && e2@ == err@)),
    {
        match phase {
            TagPhase::List => {
                let outv = crate::text::str_chars(out);
                let tagv = crate::text::str_chars(tag.as_str());
                if crate::text::contains_line(&outv, &tagv) {
                    return Ok(TagStep::Done { created: false });
                }
                let mut args: Vec<String> = vec!["tag".to_owned(), tag.clone(), "-a".to_owned()];
                let ghost mv = str_views(msgs@);
                proof {
                    assert(str_views(args@) =~= spec_tag_args(tag@, mv.take(0)));
                }
                let mut i: usize = 0;
                while i < msgs.len()
                    invariant
                        i <= msgs@.len(),
                        mv == str_views(msgs@),
                        str_views(args@) == spec_tag_args(tag@, mv.take(i as int)),
                    decreases msgs.len() - i,
                {
                    let ghost pre = str_views(args@);
                    args.push("-m".to_owned());
                    args.push(msgs[i].clone());
                    proof {
                        assert(mv.take(i + 1).drop_last() =~= mv.take(i as int));
                        assert(mv.take(i + 1).last() == mv[i as int]);
                        assert(str_views(args@) =~= pre + seq!["-m"@, mv[i as int]]);
                    }
                    i = i + 1;
                }
                proof {
                    assert(mv.take(mv.len() as int) =~= mv);
                }
                Ok(TagStep::Run { args, phase: TagPhase::Create })
            },
            TagPhase::Create => {
                if !success {
                    return Err(
                        Error::NotTagged(tag.clone(), out.to_owned(), err.to_owned()),
                    );
                }
                Ok(TagStep::Done { created: true })
            },
        }
    }
}

/// What the push workflow asks for: nothing, or one push command.
pub enum PushStep {
    Done,
    Run { args: Vec<String> },
}

/// The refs pushed: the branch when there is one, then the tag refs.
pub open spec fn spec_push_refs(branch: Option<String>, tags: Seq<String>) -> Seq<Seq<char>> {
    let b: Seq<Seq<char>> = match branch {
        Some(br) => seq![br@],
        None => Seq::empty(),
    };
    if tags.len() == 0 {
        b
    } else {
        b + seq!["tag"@] + str_views(tags)
    }
}

impl GitOpt {
    /// Push the commit (if any) and the created tags in one invocation;
    /// nothing to push is a no-op.
    pub fn push(&self, branch: &Option<String>, tags: &Vec<String>) -> (r: PushStep)
        ensures
            (self.no_git || self.no_git_push) ==> r is Done,
            !(self.no_git || self.no_git_push) && branch is None && tags@.len() == 0 ==> r is Done,
            !(self.no_git || self.no_git_push) && !(branch is None && tags@.len() == 0) ==> (r
                matches PushStep::Run { args } && str_views(args@) =~= seq![
                "push"@,
                "--no-follow-tags"@,
                self.git_remote@,
            ] + spec_push_refs(*branch, tags@)),
    {
        if self.no_git || self.no_git_push {
            return PushStep::Done;
        }
        let no_branch = match branch {
            Some(_) => false,
            None => true,
        };
        if no_branch && tags.len() == 0 {
            return PushStep::Done;
        }
        let mut args: Vec<String> = vec![
            "push".to_owned(),
            "--no-follow-tags".to_owned(),
            self.git_remote.clone(),
        ];
        match branch {
            Some(br) => {
                args.push(br.clone());
            },
            None => (),
        }
        if tags.len() > 0 {
            args.push("tag".to_owned());
            let ghost base = str_views(args@);
            let mut i: usize = 0;
            while i < tags.len()
                invariant
                    i <= tags@.len(),
                    base == str_views(args@).take(base.len() as int),
                    str_views(args@).len() == base.len() + i,
                    forall|t: int|
                        0 <= t < i ==> str_views(args@)[base.len() + t] == (#[trigger] tags@[t])@,
                decreases tags.len() - i,
            {
                args.push(tags[i].clone());
                proof {
                    assert(str_views(args@).take(base.len() as int) =~= base);
                }
                i = i + 1;
            }
            proof {
                assert(str_views(args@) =~= base + str_views(tags@));
            }
        }
        PushStep::Run { args }
    }

    /// The push outcome: a non-zero exit is `NotPushed`.
    pub fn push_step(&self, success: bool, out: &str, err: &str) -> (r: Result<(), Error>)
        ensures
            success <==> r is Ok,
            !success ==> (r matches Err(e) && (e matches Error::NotPushed(o, e2) && o@ == out@
                && e2@ == err@)),
    {
        if !success {
            return Err(Error::NotPushed(out.to_owned(), err.to_owned()));
        }
        Ok(())
    }
}


/// The views of a list of (name, version, private) triples.
pub open spec fn pkg_views(v: Seq<(String, String, bool)>) -> Seq<(Seq<char>, Seq<char>, bool)> {
    Seq::new(v.len(), |i: int| (v[i].0@, v[i].1@, v[i].2))
}

/// A scope's template repeated once per included package (private packages
/// are skipped unless `tag_private`), with `%n` and `%v` substituted.
pub open spec fn scope_body(
    template: Seq<char>,
    pkgs: Seq<(Seq<char>, Seq<char>, bool)>,
    tag_private: bool,
) -> Seq<char>
    decreases pkgs.len(),
{
    if pkgs.len() == 0 {
        Seq::empty()
    } else {
        scope_body(template, pkgs.drop_last(), tag_private) + if !pkgs.last().2 || tag_private {
            spec_replace(spec_replace(template, "%n"@, pkgs.last().0), "%v"@, pkgs.last().1)
        } else {
            Seq::empty()
        }
    }
}

/// A tag message template expanded: text is copied verbatim; a scope opened
/// by `%{` runs to the first `}` and is replaced by its body repeated per
/// package; a scope not closed before the next `%{` or the end of the
/// message is an error (`None`).
pub open spec fn spec_expand(
    s: Seq<char>,
    pkgs: Seq<(Seq<char>, Seq<char>, bool)>,
    tag_private: bool,
) -> Option<Seq<char>>
    decreases s.len(),
    via spec_expand_decreases
{
    if s.len() < 2 {
        Some(s)
    } else if s[0] == '%' && s[1] == '{' {
        let rest = s.subrange(2, s.len() as int);
        let j = crate::text::spec_idx_of(rest, '}');
        let k = crate::text::spec_idx_of2(rest, '%', '{');
        if j < 0 || (0 <= k && k < j) {
            None
        } else {
            match spec_expand(rest.subrange(j + 1, rest.len() as int), pkgs, tag_private) {
                None => None,
                Some(e) => Some(scope_body(rest.subrange(0, j), pkgs, tag_private) + e),
            }
        }
    } else {
        match spec_expand(s.subrange(1, s.len() as int), pkgs, tag_private) {
            None => None,
            Some(e) => Some(s.subrange(0, 1) + e),
        }
    }
}

#[via_fn]
proof fn spec_expand_decreases(s: Seq<char>, pkgs: Seq<(Seq<char>, Seq<char>, bool)>, tag_private: bool) {
    if s.len() >= 2 && s[0] == '%' && s[1] == '{' {
        crate::text::lemma_idx_of(s.subrange(2, s.len() as int), '}');
    }
}

/// `a` prepended to a possibly failed expansion.
pub open spec fn opt_prepend(a: Seq<char>, o: Option<Seq<char>>) -> Option<Seq<char>> {
    match o {
        None => None,
        Some(e) => Some(a + e),
    }
}

/// The expanded text, empty when expansion fails.
pub open spec fn spec_expanded(
    s: Seq<char>,
    pkgs: Seq<(Seq<char>, Seq<char>, bool)>,
    tag_private: bool,
) -> Seq<char> {
    match spec_expand(s, pkgs, tag_private) {
        Some(e) => e,
        None => Seq::empty(),
    }
}

/// One scope's body for the given packages.
fn scope_body_exec(template: &Vec<char>, pkgs: &Vec<(String, String, bool)>, tag_private: bool) -> (r:
    Vec<char>)
    ensures
        r@ == scope_body(template@, pkg_views(pkgs@), tag_private),
{
    let ghost pv = pkg_views(pkgs@);
    let pn = crate::text::str_chars("%n");
    let pvv = crate::text::str_chars("%v");
    let mut out: Vec<char> = Vec::new();
    let mut i: usize = 0;
    proof {
        assert(pv.take(0) =~= Seq::<(Seq<char>, Seq<char>, bool)>::empty());
    }
    while i < pkgs.len()
        invariant
            i <= pkgs@.len(),
            pv == pkg_views(pkgs@),
            pn@ == "%n"@,
            pvv@ == "%v"@,
            out@ == scope_body(template@, pv.take(i as int), tag_private),
        decreases pkgs.len() - i,
    {
        proof {
            assert(pv.take(i + 1).drop_last() =~= pv.take(i as int));
            assert(pv.take(i + 1).last() == pv[i as int]);
        }
        if !pkgs[i].2 || tag_private {
            let name_chars = crate::text::str_chars(pkgs[i].0.as_str());
            let ver_chars = crate::text::str_chars(pkgs[i].1.as_str());
            let s1 = crate::text::replace_chars(template, &pn, &name_chars);
            let s2 = crate::text::replace_chars(&s1, &pvv, &ver_chars);
            crate::text::append_chars(&mut out, &s2);
        }
        i = i + 1;
    }
    proof {
        assert(pv.take(pv.len() as int) =~= pv);
    }
    out
}

/// Expand a tag message template, or report the unterminated scope.
#[verifier::rlimit(80)]
fn expand_scopes(msg: &Vec<char>, pkgs: &Vec<(String, String, bool)>, tag_private: bool) -> (r:
    Result<Vec<char>, Error>)
    ensures
        match spec_expand(msg@, pkg_views(pkgs@), tag_private) {
            Some(e) => r matches Ok(v) && v@ == e,
            None => r matches Err(er) && (er matches Error::UnterminatedTagMsgScope(t) && t@
                == msg@),
        },
{
    let ghost pv = pkg_views(pkgs@);
    let n = msg.len();
    let mut out: Vec<char> = Vec::new();
    let mut i: usize = 0;
    proof {
        assert(msg@.subrange(0, n as int) =~= msg@);
        match spec_expand(msg@, pv, tag_private) {
            Some(e) => {
                assert(Seq::<char>::empty() + e =~= e);
            },
            None => (),
        }
    }
    while i < n
        invariant
            i <= n,
            n == msg@.len(),
            pv == pkg_views(pkgs@),
            spec_expand(msg@, pv, tag_private) == opt_prepend(
                out@,
                spec_expand(msg@.subrange(i as int, n as int), pv, tag_private),
            ),
        decreases n - i,
    {
        let ghost rest0 = msg@.subrange(i as int, n as int);
        if i + 1 < n && msg[i] == '%' && msg[i + 1] == '{' {
            let ghost rest = msg@.subrange(i + 2, n as int);
            let jj = crate::text::find_char_from(msg, '}', i + 2);
            let kk = crate::text::find_pair_from(msg, '%', '{', i + 2);
            proof {
                crate::text::lemma_idx_of(rest, '}');
                crate::text::lemma_idx_of2(rest, '%', '{');
                let jrel = crate::text::spec_idx_of(rest, '}');
                let krel = crate::text::spec_idx_of2(rest, '%', '{');
                match jj {
                    Some(ja) => {
                        assert(rest[ja - (i + 2)] == '}');
                        if jrel < 0 {
                            assert(rest[ja - (i + 2)] != '}');
                        }
                        if jrel < ja - (i + 2) {
                            assert(msg@[i + 2 + jrel] != '}');
                        }
                        if jrel > ja - (i + 2) {
                            assert(rest[ja - (i + 2)] != '}');
                        }
                        assert(jrel == ja - (i + 2));
                    },
                    None => {
                        if jrel >= 0 {
                            assert(msg@[i + 2 + jrel] != '}');
                        }
                        assert(jrel < 0);
                    },
                }
                match kk {
                    Some(ka) => {
                        assert(rest[ka - (i + 2)] == '%' && rest[ka - (i + 2) + 1] == '{');
                        if krel < 0 {
                            assert(!(rest[ka - (i + 2)] == '%' && rest[ka - (i + 2) + 1] == '{'));
                        }
                        if krel < ka - (i + 2) {
                            assert(!(msg@[i + 2 + krel] == '%' && msg@[i + 2 + krel + 1] == '{'));
                        }
                        if krel > ka - (i + 2) {
                            assert(!(rest[ka - (i + 2)] == '%' && rest[ka - (i + 2) + 1] == '{'));
                        }
                        assert(krel == ka - (i + 2));
                    },
                    None => {
                        if krel >= 0 {
                            assert(!(msg@[i + 2 + krel] == '%' && msg@[i + 2 + krel + 1] == '{'));
                        }
                        assert(krel < 0);
                    },
                }
                assert(rest0.subrange(2, rest0.len() as int) =~= rest);
            }
            let bad = match (&jj, &kk) {
                (None, _) => true,
                (Some(ja), Some(ka)) => *ka < *ja,
                (Some(_), None) => false,
            };
            if bad {
                proof {
                    assert(spec_expand(rest0, pv, tag_private) is None);
                }
                return Err(Error::UnterminatedTagMsgScope(crate::text::chars_string(msg)));
            }
            let ja = match jj {
                Some(ja) => ja,
                None => 0,
            };
            let template = crate::text::sub_chars(msg, i + 2, ja);
            let body = scope_body_exec(&template, pkgs, tag_private);
            let ghost out_pre = out@;
            crate::text::append_chars(&mut out, &body);
            proof {
                let jrel = crate::text::spec_idx_of(rest, '}');
                assert(rest.subrange(0, jrel) =~= msg@.subrange(i + 2, ja as int));
                assert(rest.subrange(jrel + 1, rest.len() as int) =~= msg@.subrange(
                    ja + 1,
                    n as int,
                ));
                match spec_expand(msg@.subrange(ja + 1, n as int), pv, tag_private) {
                    None => (),
                    Some(e) => {
                        assert(out_pre + (body@ + e) =~= (out_pre + body@) + e);
                    },
                }
            }
            i = ja + 1;
        } else {
            let ghost out_pre = out@;
            out.push(msg[i]);
            proof {
                if rest0.len() < 2 {
                    assert(rest0 =~= seq![msg@[i as int]]);
                    assert(msg@.subrange(i + 1, n as int) =~= Seq::<char>::empty());
                    assert(out_pre + rest0 =~= out@ + Seq::<char>::empty());
                } else {
                    assert(rest0.subrange(1, rest0.len() as int) =~= msg@.subrange(i + 1, n as int));
                    assert(rest0.subrange(0, 1) =~= seq![msg@[i as int]]);
                    match spec_expand(msg@.subrange(i + 1, n as int), pv, tag_private) {
                        None => (),
                        Some(e) => {
                            assert(out_pre + (rest0.subrange(0, 1) + e) =~= out@ + e);
                        },
                    }
                }
            }
            i = i + 1;
        }
    }
    proof {
        assert(msg@.subrange(n as int, n as int) =~= Seq::<char>::empty());
        match spec_expand(msg@, pv, tag_private) {
            Some(e) => {
                assert(out@ + Seq::<char>::empty() =~= out@);
            },
            None => (),
        }
    }
    Ok(out)
}

impl GitOpt {
    /// Plan the workspace-wide annotated tag for a unified version bump:
    /// the tag name is the prefix plus the version; each declared message
    /// template is expanded (scopes repeated per included package) and `%v`
    /// outside scopes is replaced by the unified version; without templates
    /// the tag name is the message. Returns `None` when tagging is off.
    pub fn global_tag(&self, new_version: &str, new_versions: &Vec<(String, String, bool)>) -> (r:
        Result<Option<TagPlan>, Error>)
        ensures
            (self.no_git || self.no_git_tag || self.no_global_tag) ==> (r matches Ok(o) && o
                is None),
            !(self.no_git || self.no_git_tag || self.no_global_tag) ==> {
                let pv = pkg_views(new_versions@);
                if forall|t: int|
                    0 <= t < self.tag_msg@.len() ==> spec_expand(
                        (#[trigger] self.tag_msg@[t])@,
                        pv,
                        self.tag_private,
                    ) is Some {
                    r matches Ok(o) && (o matches Some(plan) && plan.tag@ == self.tag_prefix@
                        + new_version@ && (self.tag_msg@.len() == 0 ==> plan.msgs@.len() == 1
                        && plan.msgs@[0]@ == plan.tag@) && (self.tag_msg@.len() > 0
                        ==> plan.msgs@.len() == self.tag_msg@.len() && forall|t: int|
                        0 <= t < self.tag_msg@.len() ==> (#[trigger] plan.msgs@[t])@
                            == spec_replace(
                            spec_expanded(self.tag_msg@[t]@, pv, self.tag_private),
                            "%v"@,
                            new_version@,
                        )))
                } else {
                    r matches Err(e) && (e matches Error::UnterminatedTagMsgScope(m) && exists|
                        t: int,
                    |
                        0 <= t < self.tag_msg@.len() && spec_expand(
                            (#[trigger] self.tag_msg@[t])@,
                            pv,
                            self.tag_private,
                        ) is None && (forall|u: int|
                            0 <= u < t ==> spec_expand(
                                (#[trigger] self.tag_msg@[u])@,
                                pv,
                                self.tag_private,
                            ) is Some) && m@ == self.tag_msg@[t]@)
                }
            },
    {
        if self.no_git || self.no_git_tag || self.no_global_tag {
            return Ok(None);
        }
        let ghost pv = pkg_views(new_versions@);
        let mut tagv = crate::text::str_chars(self.tag_prefix.as_str());
        crate::text::append_str(&mut tagv, new_version);
        let tag = crate::text::chars_string(&tagv);
        let pat = crate::text::str_chars("%v");
        let rep = crate::text::str_chars(new_version);
        let mut msgs: Vec<String> = Vec::new();
        let mut t: usize = 0;
        while t < self.tag_msg.len()
            invariant
                t <= self.tag_msg@.len(),
                !(self.no_git || self.no_git_tag || self.no_global_tag),
                pv == pkg_views(new_versions@),
                pat@ == "%v"@,
                rep@ == new_version@,
                msgs@.len() == t,
                forall|u: int|
                    0 <= u < t ==> spec_expand(
                        (#[trigger] self.tag_msg@[u])@,
                        pv,
                        self.tag_private,
                    ) is Some,
                forall|u: int|
                    0 <= u < t ==> (#[trigger] msgs@[u])@ == spec_replace(
                        spec_expanded(self.tag_msg@[u]@, pv, self.tag_private),
                        "%v"@,
                        new_version@,
                    ),
            decreases self.tag_msg.len() - t,
        {
            let tmpl = crate::text::str_chars(self.tag_msg[t].as_str());
            match expand_scopes(&tmpl, new_versions, self.tag_private) {
                Err(e) => {
                    return Err(e);
                },
                Ok(ex) => {
                    let replaced = crate::text::replace_chars(&ex, &pat, &rep);
                    msgs.push(crate::text::chars_string(&replaced));
                },
            }
            t = t + 1;
        }
        if msgs.len() == 0 {
            msgs.push(tag.clone());
        }
        Ok(Some(TagPlan { tag, msgs }))
    }

    /// Plan one package's annotated tag: the individual prefix with `%n`
    /// replaced by the package name, then the version; the message template
    /// (or the tag name) with `%n` and `%v` replaced. Returns `None` when
    /// individual tags are off or the package is private and private tagging
    /// is not asked for.
    pub fn individual_tag(
        &self,
        pkg_name: &str,
        is_private: bool,
        new_version: &str,
        config: &WorkspaceConfig,
    ) -> (r: Option<TagPlan>)
        ensures
            ({
                let skip = self.no_git || self.no_git_tag || self.no_individual_tags || (
                config.no_individual_tags matches Some(true)) || (is_private
                    && !self.tag_private);
                &&& skip ==> r is None
                &&& !skip ==> (r matches Some(plan) && plan.tag@ == spec_replace(
                    self.individual_tag_prefix@,
                    "%n"@,
                    pkg_name@,
                ) + new_version@ && plan.msgs@.len() == 1 && plan.msgs@[0]@ == (
                match self.individual_tag_msg {
                    Some(m) => spec_replace(
                        spec_replace(m@, "%n"@, pkg_name@),
                        "%v"@,
                        new_version@,
                    ),
                    None => plan.tag@,
                }))
            }),
    {
        let config_no_tags = match &config.no_individual_tags {
            Some(b) => *b,
            None => false,
        };
        if self.no_git || self.no_git_tag || self.no_individual_tags || config_no_tags || (
        is_private && !self.tag_private) {
            return None;
        }
        let pn = crate::text::str_chars("%n");
        let pvv = crate::text::str_chars("%v");
        let name_chars = crate::text::str_chars(pkg_name);
        let ver_chars = crate::text::str_chars(new_version);
        let prefix = crate::text::str_chars(self.individual_tag_prefix.as_str());
        let mut tagv = crate::text::replace_chars(&prefix, &pn, &name_chars);
        crate::text::append_chars(&mut tagv, &ver_chars);
        let tag = crate::text::chars_string(&tagv);
        let msg: String = match &self.individual_tag_msg {
            Some(m) => {
                let mv = crate::text::str_chars(m.as_str());
                let s1 = crate::text::replace_chars(&mv, &pn, &name_chars);
                let s2 = crate::text::replace_chars(&s1, &pvv, &ver_chars);
                crate::text::chars_string(&s2)
            },
            None => tag.clone(),
        };
        let msgs: Vec<String> = vec![msg];
        Some(TagPlan { tag, msgs })
    }
}

} // verus!
