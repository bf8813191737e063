use cargo_workspaces::classify::get_group_packages;
use cargo_workspaces::error::{get_debug, set_debug, Context, Error};
use cargo_workspaces::pkg::{
    ExcludeSpec, GroupName, GroupSpec, MetaPkg, WorkspaceConfig, WorkspaceMeta,
};

fn meta_pkg(id: &str, name: &str, path: &str, private: bool, inherits: bool) -> MetaPkg {
    MetaPkg {
        id: id.to_string(),
        name: name.to_string(),
        version: "0.1.0".to_string(),
        location: format!("/ws/{}", path),
        path: path.to_string(),
        manifest_path: format!("/ws/{}/Cargo.toml", path),
        publish: if private { Some(vec![]) } else { None },
        deps: vec![],
        inherits_version: inherits,
    }
}

fn workspace(pkgs: Vec<MetaPkg>) -> WorkspaceMeta {
    WorkspaceMeta {
        workspace_root: "/ws".to_string(),
        members: pkgs.iter().map(|p| p.id.clone()).collect(),
        packages: pkgs,
    }
}

fn config(groups: Vec<(&str, Vec<&str>)>, exclude: Option<Vec<&str>>) -> WorkspaceConfig {
    WorkspaceConfig {
        version: None,
        groups: groups
            .into_iter()
            .map(|(n, ms)| GroupSpec {
                name: n.to_string(),
                members: ms.into_iter().map(|m| m.to_string()).collect(),
                version: None,
            })
            .collect(),
        exclude: exclude.map(|ms| ExcludeSpec {
            members: ms.into_iter().map(|m| m.to_string()).collect(),
        }),
        allow_branch: None,
        no_individual_tags: None,
    }
}

#[test]
fn group_name_reserved() {
    match GroupName::new("default") {
        Err(Error::ReservedGroupName { name }) => assert_eq!(name, "default"),
        _ => panic!("expected reserved name error"),
    }
    match GroupName::new("excluded") {
        Err(Error::ReservedGroupName { name }) => assert_eq!(name, "excluded"),
        _ => panic!("expected reserved name error"),
    }
}

#[test]
fn group_name_invalid_colon() {
    match GroupName::new("a:b") {
        Err(Error::InvalidGroupName { msg }) => {
            assert_eq!(msg, "invalid character `:` in group name: `a:b`")
        }
        _ => panic!("expected invalid name error"),
    }
}

#[test]
fn group_name_invalid_space() {
    match GroupName::validate("a b") {
        Err(msg) => assert_eq!(msg, "unexpected space in group name: `a b`"),
        Ok(()) => panic!("expected invalid name error"),
    }
}

#[test]
fn group_name_custom_ok() {
    match GroupName::new("release") {
        Ok(GroupName::Custom(s)) => assert_eq!(s, "release"),
        _ => panic!("expected custom name"),
    }
    assert!(GroupName::validate("release-1.x").is_ok());
}

#[test]
fn classify_default_only() {
    let meta = workspace(vec![meta_pkg("a", "a", "crates/a", false, false)]);
    let cfg = config(vec![], None);
    let wg = get_group_packages(&meta, &cfg, false).expect("classification");
    assert_eq!(wg.named_groups.len(), 2);
    assert!(wg.named_groups[0].0 == GroupName::Default);
    assert!(wg.named_groups[1].0 == GroupName::Excluded);
    assert_eq!(wg.named_groups[0].2.len(), 1);
    assert_eq!(wg.named_groups[0].2[0].name, "a");
    assert_eq!(wg.named_groups[1].2.len(), 0);
}

#[test]
fn classify_custom_group_membership() {
    let meta = workspace(vec![
        meta_pkg("a", "a", "crates/a", false, false),
        meta_pkg("b", "b", "tools/b", false, false),
    ]);
    let cfg = config(vec![("release", vec!["crates/*"])], None);
    let wg = get_group_packages(&meta, &cfg, false).expect("classification");
    assert_eq!(wg.named_groups.len(), 3);
    assert!(wg.named_groups[1].0 == GroupName::Custom("release".to_string()));
    assert_eq!(wg.named_groups[1].2.len(), 1);
    assert_eq!(wg.named_groups[1].2[0].name, "a");
    // the unmatched package falls into the default group
    assert_eq!(wg.named_groups[0].2.len(), 1);
    assert_eq!(wg.named_groups[0].2[0].name, "b");
}

#[test]
fn exclusion_takes_priority_over_custom_groups() {
    // a package at crates/internal matches both `crates/*` and the exclusion
    // pattern: it is excluded, not ambiguous
    let meta = workspace(vec![
        meta_pkg("a", "a", "crates/a", false, false),
        meta_pkg("i", "internal", "crates/internal", false, false),
    ]);
    let cfg = config(
        vec![("release", vec!["crates/*"])],
        Some(vec!["crates/internal"]),
    );
    let wg = get_group_packages(&meta, &cfg, false).expect("classification");
    assert_eq!(wg.named_groups[1].2.len(), 1);
    assert_eq!(wg.named_groups[1].2[0].name, "a");
    let excluded = &wg.named_groups[2];
    assert!(excluded.0 == GroupName::Excluded);
    assert_eq!(excluded.2.len(), 1);
    assert_eq!(excluded.2[0].name, "internal");
}

#[test]
fn ambiguous_membership_is_a_conflict() {
    let meta = workspace(vec![meta_pkg("a", "a", "crates/a", false, false)]);
    let cfg = config(
        vec![("one", vec!["crates/*"]), ("two", vec!["crates/a"])],
        None,
    );
    match get_group_packages(&meta, &cfg, false) {
        Err(Error::PackageExistsInMultipleGroups {
            name,
            rel_path,
            inherits,
            groups,
        }) => {
            assert_eq!(name, "a");
            assert_eq!(rel_path, "crates/a");
            assert!(!inherits);
            assert_eq!(groups.len(), 2);
            assert!(groups[0] == GroupName::Custom("one".to_string()));
            assert!(groups[1] == GroupName::Custom("two".to_string()));
        }
        _ => panic!("expected a multiple-groups conflict"),
    }
}

#[test]
fn inherited_version_in_one_group_is_a_conflict() {
    // even a single matching group conflicts with a workspace-inherited version
    let meta = workspace(vec![meta_pkg("a", "a", "crates/a", false, true)]);
    let cfg = config(vec![("release", vec!["crates/*"])], None);
    match get_group_packages(&meta, &cfg, false) {
        Err(Error::PackageExistsInMultipleGroups {
            name,
            inherits,
            groups,
            ..
        }) => {
            assert_eq!(name, "a");
            assert!(inherits);
            assert_eq!(groups.len(), 1);
            assert!(groups[0] == GroupName::Custom("release".to_string()));
        }
        _ => panic!("expected an inheritance conflict"),
    }
}

#[test]
fn inherited_version_without_match_is_fine() {
    let meta = workspace(vec![meta_pkg("a", "a", "crates/a", false, true)]);
    let cfg = config(vec![("release", vec!["tools/*", "crates/a"])], None);
    // pattern tools/* does not match anything -> unmatched report, so use a
    // config where everything matches but not the inherited package
    let meta2 = workspace(vec![
        meta_pkg("a", "a", "crates/a", false, true),
        meta_pkg("t", "t", "tools/t", false, false),
    ]);
    let cfg2 = config(vec![("release", vec!["tools/*"])], None);
    let wg = get_group_packages(&meta2, &cfg2, false).expect("classification");
    assert_eq!(wg.named_groups[0].2.len(), 1);
    assert_eq!(wg.named_groups[0].2[0].name, "a");
    // and the conflicting case still fails
    assert!(get_group_packages(&meta, &cfg, false).is_err());
}

#[test]
fn duplicate_group_name_is_refused() {
    let meta = workspace(vec![meta_pkg("a", "a", "crates/a", false, false)]);
    let cfg = config(
        vec![("one", vec!["crates/*"]), ("one", vec!["tools/*"])],
        None,
    );
    match get_group_packages(&meta, &cfg, false) {
        Err(Error::DuplicateGroupName { name }) => assert_eq!(name, "one"),
        _ => panic!("expected a duplicate group error"),
    }
}

#[test]
fn empty_group_is_refused() {
    let meta = workspace(vec![meta_pkg("a", "a", "crates/a", false, false)]);
    let cfg = config(vec![("one", vec![])], None);
    match get_group_packages(&meta, &cfg, false) {
        Err(Error::EmptyGroup { name }) => assert_eq!(name, "one"),
        _ => panic!("expected an empty group error"),
    }
}

#[test]
fn reserved_group_declaration_is_refused() {
    let meta = workspace(vec![meta_pkg("a", "a", "crates/a", false, false)]);
    let cfg = config(vec![("excluded", vec!["crates/*"])], None);
    match get_group_packages(&meta, &cfg, false) {
        Err(Error::ReservedGroupName { name }) => assert_eq!(name, "excluded"),
        _ => panic!("expected a reserved name error"),
    }
}

#[test]
fn fully_excluded_workspace_still_classifies() {
    // an excluded member is classified (into the exclusion group), so a
    // workspace whose members all match exclusion patterns is not empty
    let meta = workspace(vec![meta_pkg("a", "a", "crates/a", false, false)]);
    let cfg = config(vec![], Some(vec!["crates/*"]));
    let wg = get_group_packages(&meta, &cfg, false).expect("classification");
    assert_eq!(wg.named_groups[0].2.len(), 0);
    assert!(wg.named_groups[1].0 == GroupName::Excluded);
    assert_eq!(wg.named_groups[1].2.len(), 1);
    assert_eq!(wg.named_groups[1].2[0].name, "a");
}

#[test]
fn empty_workspace_without_members() {
    let meta = workspace(vec![]);
    let cfg = config(vec![], None);
    match get_group_packages(&meta, &cfg, false) {
        Err(Error::EmptyWorkspace) => {}
        _ => panic!("expected an empty workspace error"),
    }
}

#[test]
fn empty_workspace_with_only_dangling_members() {
    let mut meta = workspace(vec![]);
    meta.members.push("ghost".to_string());
    let cfg = config(vec![], None);
    match get_group_packages(&meta, &cfg, false) {
        Err(Error::EmptyWorkspace) => {}
        _ => panic!("expected an empty workspace error"),
    }
}

#[test]
fn unmatched_custom_pattern_reported() {
    let meta = workspace(vec![meta_pkg("a", "a", "crates/a", false, false)]);
    let cfg = config(vec![("one", vec!["crates/*", "tools/*", "libs/*"])], None);
    match get_group_packages(&meta, &cfg, false) {
        Err(Error::UnmatchedCustomGroupPattern(report)) => {
            assert_eq!(report.len(), 1);
            assert_eq!(report[0].0, "one");
            assert_eq!(report[0].1, vec!["tools/*".to_string(), "libs/*".to_string()]);
        }
        _ => panic!("expected an unmatched pattern error"),
    }
}

#[test]
fn unmatched_exclude_pattern_reported() {
    let meta = workspace(vec![meta_pkg("a", "a", "crates/a", false, false)]);
    let cfg = config(vec![], Some(vec!["tools/*"]));
    match get_group_packages(&meta, &cfg, false) {
        Err(Error::UnmatchedExcludeGroupPattern(pats)) => {
            assert_eq!(pats, vec!["tools/*".to_string()]);
        }
        _ => panic!("expected an unmatched exclude pattern error"),
    }
}

#[test]
fn private_packages_dropped_unless_all() {
    let meta = workspace(vec![
        meta_pkg("a", "a", "crates/a", false, false),
        meta_pkg("p", "p", "crates/p", true, false),
    ]);
    let cfg = config(vec![], None);
    let wg = get_group_packages(&meta, &cfg, false).expect("classification");
    assert_eq!(wg.named_groups[0].2.len(), 1);
    assert_eq!(wg.named_groups[0].2[0].name, "a");
    let wg_all = get_group_packages(&meta, &cfg, true).expect("classification");
    assert_eq!(wg_all.named_groups[0].2.len(), 2);
    assert!(wg_all.named_groups[0].2.iter().any(|p| p.private));
}

#[test]
fn groups_sorted_by_package_name() {
    let meta = workspace(vec![
        meta_pkg("z", "zeta", "crates/z", false, false),
        meta_pkg("m", "mid", "crates/m", false, false),
        meta_pkg("a", "alpha", "crates/a", false, false),
    ]);
    let cfg = config(vec![], None);
    let wg = get_group_packages(&meta, &cfg, false).expect("classification");
    let names: Vec<String> = wg.named_groups[0].2.iter().map(|p| p.name.clone()).collect();
    assert_eq!(names, vec!["alpha".to_string(), "mid".to_string(), "zeta".to_string()]);
}

#[test]
fn dangling_member_is_skipped() {
    let mut meta = workspace(vec![meta_pkg("a", "a", "crates/a", false, false)]);
    meta.members.push("ghostly-id".to_string());
    let cfg = config(vec![], None);
    let wg = get_group_packages(&meta, &cfg, false).expect("classification");
    assert_eq!(wg.named_groups[0].2.len(), 1);
    assert_eq!(
        cargo_workspaces::classify::dangling_members(&meta),
        vec!["ghostly-id".to_string()]
    );
}

#[test]
fn group_name_parses_reserved_literals() {
    assert!("default".parse::<GroupName>() == Ok(GroupName::Default));
    assert!("excluded".parse::<GroupName>() == Ok(GroupName::Excluded));
    assert!("rel".parse::<GroupName>() == Ok(GroupName::Custom("rel".to_string())));
    assert!("a b".parse::<GroupName>().is_err());
}

#[test]
fn classification_is_deterministic() {
    let build = || {
        let meta = workspace(vec![
            meta_pkg("a", "a", "crates/a", false, false),
            meta_pkg("b", "b", "tools/b", true, false),
            meta_pkg("i", "internal", "crates/internal", false, false),
        ]);
        let cfg = config(
            vec![("release", vec!["crates/*"])],
            Some(vec!["crates/internal"]),
        );
        get_group_packages(&meta, &cfg, true).expect("classification")
    };
    let first = build();
    let second = build();
    assert_eq!(first.named_groups.len(), second.named_groups.len());
    for (g1, g2) in first.named_groups.iter().zip(second.named_groups.iter()) {
        assert!(g1.0 == g2.0);
        let n1: Vec<&String> = g1.2.iter().map(|p| &p.name).collect();
        let n2: Vec<&String> = g2.2.iter().map(|p| &p.name).collect();
        assert_eq!(n1, n2);
    }
}

#[test]
fn into_iter_orders_default_custom_excluded() {
    let meta = workspace(vec![
        meta_pkg("a", "a", "crates/a", false, false),
        meta_pkg("d", "d", "tools/d", false, false),
        meta_pkg("i", "internal", "crates/internal", false, false),
    ]);
    let cfg = config(
        vec![("release", vec!["crates/*"])],
        Some(vec!["crates/internal"]),
    );
    let wg = get_group_packages(&meta, &cfg, false).expect("classification");
    let flat = wg.into_iter();
    let labels: Vec<(GroupName, String)> = flat
        .into_iter()
        .map(|((g, _), p)| (g, p.name))
        .collect();
    assert_eq!(labels.len(), 3);
    assert!(labels[0].0 == GroupName::Default);
    assert_eq!(labels[0].1, "d");
    assert!(labels[1].0 == GroupName::Custom("release".to_string()));
    assert_eq!(labels[1].1, "a");
    assert!(labels[2].0 == GroupName::Excluded);
    assert_eq!(labels[2].1, "internal");
}

#[test]
fn version_overrides_carried_per_group() {
    let meta = workspace(vec![
        meta_pkg("a", "a", "crates/a", false, false),
        meta_pkg("b", "b", "tools/b", false, false),
    ]);
    let mut cfg = config(vec![("release", vec!["crates/*"])], None);
    cfg.version = Some("1.0.0".to_string());
    cfg.groups[0].version = Some("2.0.0".to_string());
    let wg = get_group_packages(&meta, &cfg, false).expect("classification");
    assert_eq!(wg.named_groups[0].1, Some("1.0.0".to_string()));
    assert_eq!(wg.named_groups[1].1, Some("2.0.0".to_string()));
    assert_eq!(wg.named_groups[2].1, None);
}

#[test]
fn debug_flag_round_trip() {
    let mut ctx = Context::new();
    assert!(!get_debug(&ctx));
    set_debug(&mut ctx);
    assert!(get_debug(&ctx));
}
