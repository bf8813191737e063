use cargo_workspaces::error::Error;
use cargo_workspaces::git::{
    CommitPhase, CommitStep, GitOpt, PushStep, TagPhase, TagStep, ValidatePhase, ValidateStep,
};
use cargo_workspaces::pkg::WorkspaceConfig;

fn git_opt() -> GitOpt {
    GitOpt {
        no_git_commit: false,
        allow_branch: None,
        amend: false,
        message: None,
        no_git_tag: false,
        no_individual_tags: false,
        no_global_tag: false,
        tag_private: false,
        tag_prefix: "v".to_string(),
        individual_tag_prefix: "%n@".to_string(),
        tag_msg: vec![],
        individual_tag_msg: None,
        no_git_push: false,
        git_remote: "origin".to_string(),
        no_git: false,
    }
}

fn bare_config() -> WorkspaceConfig {
    WorkspaceConfig {
        version: None,
        groups: vec![],
        exclude: None,
        allow_branch: None,
        no_individual_tags: None,
    }
}

#[test]
fn validate_skipped_entirely_without_git() {
    let mut opt = git_opt();
    opt.no_git = true;
    match opt.validate() {
        ValidateStep::Done { branch } => assert!(branch.is_none()),
        _ => panic!("expected no git action"),
    }
}

#[test]
fn validate_starts_with_revision_count() {
    let opt = git_opt();
    match opt.validate() {
        ValidateStep::Run { args, phase } => {
            assert_eq!(args, vec!["rev-list", "--count", "--all", "--max-count=1"]);
            assert!(matches!(phase, ValidatePhase::RevCount));
        }
        _ => panic!("expected a git command"),
    }
}

#[test]
fn validate_not_a_repository() {
    let opt = git_opt();
    let r = opt.validate_step(
        &bare_config(),
        ValidatePhase::RevCount,
        false,
        "",
        "fatal: not a git repository (or any of the parent directories): .git",
    );
    assert!(matches!(r, Err(Error::NotGit)));
}

#[test]
fn validate_no_commits() {
    let opt = git_opt();
    let r = opt.validate_step(&bare_config(), ValidatePhase::RevCount, true, "0", "");
    assert!(matches!(r, Err(Error::NoCommits)));
}

#[test]
fn validate_detached_head() {
    let opt = git_opt();
    let r = opt.validate_step(&bare_config(), ValidatePhase::Branch, true, "HEAD", "");
    assert!(matches!(r, Err(Error::NotBranch)));
}

#[test]
fn validate_main_counts_as_master() {
    // branch `main` with the default allow pattern `master` passes
    let opt = git_opt();
    match opt.validate_step(&bare_config(), ValidatePhase::Branch, true, "main", "") {
        Ok(ValidateStep::Run { args, phase }) => {
            match phase {
                ValidatePhase::RemoteRef { branch } => assert_eq!(branch, "main"),
                _ => panic!("expected the remote-ref phase"),
            }
            assert_eq!(
                args,
                vec![
                    "for-each-ref".to_string(),
                    "--format='%(refname)'".to_string(),
                    "refs/remotes/origin/main".to_string()
                ]
            );
        }
        _ => panic!("expected validation to proceed"),
    }
}

#[test]
fn validate_allow_pattern_from_workspace_config() {
    let opt = git_opt();
    let mut cfg = bare_config();
    cfg.allow_branch = Some("dev*".to_string());
    match opt.validate_step(&cfg, ValidatePhase::Branch, true, "development", "") {
        Ok(ValidateStep::Run { .. }) => {}
        _ => panic!("expected the configured pattern to allow the branch"),
    }
    match opt.validate_step(&cfg, ValidatePhase::Branch, true, "master", "") {
        Err(Error::BranchNotAllowed { branch, pattern }) => {
            assert_eq!(branch, "master");
            assert_eq!(pattern, "dev*");
        }
        _ => panic!("expected a branch refusal"),
    }
}

#[test]
fn validate_branch_not_allowed() {
    let opt = git_opt();
    match opt.validate_step(&bare_config(), ValidatePhase::Branch, true, "feature/x", "") {
        Err(Error::BranchNotAllowed { branch, pattern }) => {
            assert_eq!(branch, "feature/x");
            assert_eq!(pattern, "master");
        }
        _ => panic!("expected a branch refusal"),
    }
}

#[test]
fn validate_missing_remote() {
    let opt = git_opt();
    let phase = ValidatePhase::RemoteRef {
        branch: "master".to_string(),
    };
    match opt.validate_step(&bare_config(), phase, true, "", "") {
        Err(Error::NoRemote { remote, branch }) => {
            assert_eq!(remote, "origin");
            assert_eq!(branch, "master");
        }
        _ => panic!("expected a missing remote error"),
    }
}

#[test]
fn validate_behind_remote() {
    let opt = git_opt();
    let phase = ValidatePhase::Behind {
        branch: "master".to_string(),
    };
    match opt.validate_step(&bare_config(), phase, true, "2", "") {
        Err(Error::BehindRemote { upstream, branch }) => {
            assert_eq!(upstream, "origin/master");
            assert_eq!(branch, "master");
        }
        _ => panic!("expected a behind-remote error"),
    }
}

#[test]
fn validate_full_success_path() {
    let opt = git_opt();
    let cfg = bare_config();
    let s1 = opt
        .validate_step(&cfg, ValidatePhase::RevCount, true, "1", "")
        .expect("revision count");
    let phase1 = match s1 {
        ValidateStep::Run { phase, .. } => phase,
        _ => panic!("expected the branch query"),
    };
    assert!(matches!(phase1, ValidatePhase::Branch));
    let s2 = opt
        .validate_step(&cfg, phase1, true, "master", "")
        .expect("branch check");
    let phase2 = match s2 {
        ValidateStep::Run { phase, .. } => phase,
        _ => panic!("expected the remote-ref query"),
    };
    let s3 = opt
        .validate_step(&cfg, phase2, true, "'refs/remotes/origin/master'", "")
        .expect("remote ref");
    let phase3 = match s3 {
        ValidateStep::Run { phase, .. } => phase,
        _ => panic!("expected the remote update"),
    };
    let s4 = opt.validate_step(&cfg, phase3, true, "", "").expect("remote update");
    let phase4 = match s4 {
        ValidateStep::Run { args, phase } => {
            assert_eq!(args[3], "origin/master...master");
            phase
        }
        _ => panic!("expected the behind count"),
    };
    match opt.validate_step(&cfg, phase4, true, "0", "").expect("behind count") {
        ValidateStep::Done { branch } => assert_eq!(branch, Some("master".to_string())),
        _ => panic!("expected validation to finish"),
    }
}

#[test]
fn commit_skipped_when_off() {
    let mut opt = git_opt();
    opt.no_git_commit = true;
    assert!(matches!(opt.commit(), CommitStep::Done));
}

#[test]
fn commit_stages_then_commits_with_message() {
    let opt = git_opt();
    match opt.commit() {
        CommitStep::Run { args, phase } => {
            assert_eq!(args, vec!["add", "-u"]);
            assert!(matches!(phase, CommitPhase::Add));
        }
        _ => panic!("expected staging"),
    }
    let plan = vec![
        ("alpha".to_string(), "1.2.3".to_string()),
        ("beta".to_string(), "1.2.3".to_string()),
    ];
    let version = Some("1.2.3".to_string());
    match opt.commit_step(&version, &plan, CommitPhase::Add, true, "", "") {
        Ok(CommitStep::Run { args, phase }) => {
            assert!(matches!(phase, CommitPhase::Commit));
            assert_eq!(args[0], "commit");
            assert_eq!(args[1], "-m");
            assert_eq!(
                args[2],
                "Release 1.2.3\n\nalpha@1.2.3\nbeta@1.2.3\n\nGenerated by cargo-workspaces"
            );
        }
        _ => panic!("expected the commit command"),
    }
}

#[test]
fn commit_message_for_independent_versions() {
    let opt = git_opt();
    let plan = vec![("alpha".to_string(), "0.2.0".to_string())];
    match opt.commit_step(&None, &plan, CommitPhase::Add, true, "", "") {
        Ok(CommitStep::Run { args, .. }) => {
            assert_eq!(
                args[2],
                "Release independent packages\n\nalpha@0.2.0\n\nGenerated by cargo-workspaces"
            );
        }
        _ => panic!("expected the commit command"),
    }
}

#[test]
fn commit_amend_has_no_message() {
    let mut opt = git_opt();
    opt.amend = true;
    match opt.commit_step(&None, &vec![], CommitPhase::Add, true, "", "") {
        Ok(CommitStep::Run { args, .. }) => {
            assert_eq!(args, vec!["commit", "--amend", "--no-edit"]);
        }
        _ => panic!("expected the commit command"),
    }
}

#[test]
fn commit_failures_are_typed() {
    let opt = git_opt();
    match opt.commit_step(&None, &vec![], CommitPhase::Add, false, "o", "e") {
        Err(Error::NotAdded(o, e)) => {
            assert_eq!(o, "o");
            assert_eq!(e, "e");
        }
        _ => panic!("expected a staging failure"),
    }
    match opt.commit_step(&None, &vec![], CommitPhase::Commit, false, "o", "e") {
        Err(Error::NotCommitted(o, e)) => {
            assert_eq!(o, "o");
            assert_eq!(e, "e");
        }
        _ => panic!("expected a commit failure"),
    }
}

#[test]
fn tag_creation_is_idempotent() {
    // the tag already exists in the listing: the second run creates nothing
    let opt = git_opt();
    let tag = "v1.2.3".to_string();
    let msgs = vec!["v1.2.3".to_string()];
    let listing = "v1.0.0\nv1.2.3\nother";
    match opt.tag_step(&tag, &msgs, TagPhase::List, true, listing, "") {
        Ok(TagStep::Done { created }) => assert!(!created),
        _ => panic!("expected the existing tag to be kept"),
    }
}

#[test]
fn tag_created_when_absent() {
    let opt = git_opt();
    let tag = "v1.2.3".to_string();
    let msgs = vec!["one".to_string(), "two".to_string()];
    // `v1.2.30` contains the tag text but is not the tag itself
    match opt.tag_step(&tag, &msgs, TagPhase::List, true, "v1.0.0\nv1.2.30", "") {
        Ok(TagStep::Run { args, phase }) => {
            assert!(matches!(phase, TagPhase::Create));
            assert_eq!(args, vec!["tag", "v1.2.3", "-a", "-m", "one", "-m", "two"]);
        }
        _ => panic!("expected the tag creation command"),
    }
    match opt.tag_step(&tag, &msgs, TagPhase::Create, false, "o", "e") {
        Err(Error::NotTagged(t, o, e)) => {
            assert_eq!(t, "v1.2.3");
            assert_eq!(o, "o");
            assert_eq!(e, "e");
        }
        _ => panic!("expected a tagging failure"),
    }
}

#[test]
fn global_tag_expands_scopes() {
    let mut opt = git_opt();
    opt.tag_msg = vec!["Release\n%{- %n@%v\n}done %v".to_string()];
    let pkgs = vec![
        ("alpha".to_string(), "1.0.0".to_string(), false),
        ("secret".to_string(), "9.9.9".to_string(), true),
        ("beta".to_string(), "2.0.0".to_string(), false),
    ];
    let plan = opt.global_tag("3.0.0", &pkgs).expect("template").expect("a plan");
    assert_eq!(plan.tag, "v3.0.0");
    assert_eq!(plan.msgs.len(), 1);
    // the private package is skipped; %v outside the scope is the unified version
    assert_eq!(plan.msgs[0], "Release\n- alpha@1.0.0\n- beta@2.0.0\ndone 3.0.0");
}

#[test]
fn global_tag_includes_private_when_asked() {
    let mut opt = git_opt();
    opt.tag_private = true;
    opt.tag_msg = vec!["%{<%n>%}".to_string()];
    let pkgs = vec![("p".to_string(), "0.1.0".to_string(), true)];
    let plan = opt.global_tag("1.0.0", &pkgs).expect("template").expect("a plan");
    assert_eq!(plan.msgs[0], "<p>%");
}

#[test]
fn global_tag_without_messages_uses_tag_name() {
    let opt = git_opt();
    let plan = opt.global_tag("1.2.3", &vec![]).expect("template").expect("a plan");
    assert_eq!(plan.tag, "v1.2.3");
    assert_eq!(plan.msgs, vec!["v1.2.3".to_string()]);
}

#[test]
fn global_tag_unterminated_scope_is_fatal() {
    let mut opt = git_opt();
    opt.tag_msg = vec!["ok".to_string(), "bad %{name".to_string()];
    match opt.global_tag("1.0.0", &vec![]) {
        Err(Error::UnterminatedTagMsgScope(m)) => assert_eq!(m, "bad %{name"),
        _ => panic!("expected an unterminated scope error"),
    }
}

#[test]
fn global_tag_nested_scope_open_is_fatal() {
    let mut opt = git_opt();
    opt.tag_msg = vec!["a%{x%{y}b".to_string()];
    assert!(matches!(
        opt.global_tag("1.0.0", &vec![]),
        Err(Error::UnterminatedTagMsgScope(_))
    ));
}

#[test]
fn global_tag_multiple_scopes_and_literal_braces() {
    let mut opt = git_opt();
    opt.tag_msg = vec!["}lead%{[%n]}mid%{(%v)}end".to_string()];
    let pkgs = vec![("a".to_string(), "1.0.0".to_string(), false)];
    let plan = opt.global_tag("2.0.0", &pkgs).expect("template").expect("a plan");
    // a `}` outside any scope is plain text; each scope repeats per package
    assert_eq!(plan.msgs[0], "}lead[a]mid(1.0.0)end");
}

#[test]
fn global_tag_scope_versions_are_per_package() {
    let mut opt = git_opt();
    opt.tag_msg = vec!["%{%n@%v }unified %v".to_string()];
    let pkgs = vec![
        ("a".to_string(), "1.1.1".to_string(), false),
        ("b".to_string(), "2.2.2".to_string(), false),
    ];
    let plan = opt.global_tag("9.9.9", &pkgs).expect("template").expect("a plan");
    assert_eq!(plan.msgs[0], "a@1.1.1 b@2.2.2 unified 9.9.9");
}

#[test]
fn global_tag_skipped_when_off() {
    let mut opt = git_opt();
    opt.no_global_tag = true;
    assert!(opt.global_tag("1.0.0", &vec![]).expect("no template error").is_none());
}

#[test]
fn individual_tag_substitutes_name_and_version() {
    let opt = git_opt();
    let plan = opt
        .individual_tag("alpha", false, "1.0.0", &bare_config())
        .expect("a plan");
    assert_eq!(plan.tag, "alpha@1.0.0");
    assert_eq!(plan.msgs, vec!["alpha@1.0.0".to_string()]);
}

#[test]
fn individual_tag_custom_message() {
    let mut opt = git_opt();
    opt.individual_tag_msg = Some("pkg %n at %v".to_string());
    let plan = opt
        .individual_tag("alpha", false, "1.0.0", &bare_config())
        .expect("a plan");
    assert_eq!(plan.msgs, vec!["pkg alpha at 1.0.0".to_string()]);
}

#[test]
fn individual_tag_skips_private_packages() {
    let opt = git_opt();
    assert!(opt.individual_tag("p", true, "1.0.0", &bare_config()).is_none());
    let mut with_private = git_opt();
    with_private.tag_private = true;
    assert!(with_private.individual_tag("p", true, "1.0.0", &bare_config()).is_some());
}

#[test]
fn individual_tag_honours_workspace_setting() {
    let opt = git_opt();
    let mut cfg = bare_config();
    cfg.no_individual_tags = Some(true);
    assert!(opt.individual_tag("a", false, "1.0.0", &cfg).is_none());
}

#[test]
fn push_combines_branch_and_tags() {
    let opt = git_opt();
    let branch = Some("master".to_string());
    let tags = vec!["v1.0.0".to_string(), "alpha@1.0.0".to_string()];
    match opt.push(&branch, &tags) {
        PushStep::Run { args } => {
            assert_eq!(
                args,
                vec!["push", "--no-follow-tags", "origin", "master", "tag", "v1.0.0", "alpha@1.0.0"]
            );
        }
        _ => panic!("expected a push command"),
    }
}

#[test]
fn push_with_nothing_to_do_is_a_no_op() {
    let opt = git_opt();
    assert!(matches!(opt.push(&None, &vec![]), PushStep::Done));
    let mut off = git_opt();
    off.no_git_push = true;
    assert!(matches!(
        off.push(&Some("master".to_string()), &vec!["v1".to_string()]),
        PushStep::Done
    ));
}

#[test]
fn push_failure_is_typed() {
    let opt = git_opt();
    match opt.push_step(false, "o", "e") {
        Err(Error::NotPushed(o, e)) => {
            assert_eq!(o, "o");
            assert_eq!(e, "e");
        }
        _ => panic!("expected a push failure"),
    }
    assert!(opt.push_step(true, "", "").is_ok());
}
