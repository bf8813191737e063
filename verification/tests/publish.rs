use cargo_workspaces::dag::dag;
use cargo_workspaces::error::Error;
use cargo_workspaces::pkg::MetaPkg;
use cargo_workspaces::publish::{publish_output_ok, Publish, PublishAction};

fn plan_pkg(name: &str, deps: Vec<&str>, private: bool) -> (MetaPkg, String) {
    (
        MetaPkg {
            id: name.to_string(),
            name: name.to_string(),
            version: "1.0.0".to_string(),
            location: format!("/ws/{}", name),
            path: name.to_string(),
            manifest_path: format!("/ws/{}/Cargo.toml", name),
            publish: if private { Some(vec![]) } else { None },
            deps: deps.into_iter().map(|d| d.to_string()).collect(),
            inherits_version: false,
        },
        "1.0.0".to_string(),
    )
}

fn publish_opts() -> Publish {
    Publish {
        from_git: false,
        skip_published: false,
        skip_verification: false,
        allow_dirty: false,
        token: None,
        registry: None,
    }
}

fn chain_plan() -> Vec<(MetaPkg, String)> {
    // B depends on A, C depends on B
    vec![
        plan_pkg("c", vec!["b"], false),
        plan_pkg("a", vec![], false),
        plan_pkg("b", vec!["a"], false),
    ]
}

fn order_names(pkgs: &[(MetaPkg, String)], ord: &[usize]) -> Vec<String> {
    ord.iter().map(|&k| pkgs[k].0.name.clone()).collect()
}

#[test]
fn dag_orders_dependencies_first() {
    let pkgs = chain_plan();
    let ord = dag(&pkgs).expect("no cycle");
    assert_eq!(order_names(&pkgs, &ord), vec!["a", "b", "c"]);
}

#[test]
fn dag_visits_shared_dependencies_once() {
    let pkgs = vec![
        plan_pkg("x", vec!["common"], false),
        plan_pkg("y", vec!["common"], false),
        plan_pkg("common", vec![], false),
    ];
    let ord = dag(&pkgs).expect("no cycle");
    assert_eq!(order_names(&pkgs, &ord), vec!["common", "x", "y"]);
}

#[test]
fn dag_keeps_input_order_for_independent_packages() {
    let pkgs = vec![
        plan_pkg("zeta", vec![], false),
        plan_pkg("alpha", vec![], false),
        plan_pkg("mid", vec![], false),
    ];
    let ord = dag(&pkgs).expect("no cycle");
    assert_eq!(order_names(&pkgs, &ord), vec!["zeta", "alpha", "mid"]);
}

#[test]
fn dag_refuses_self_dependency() {
    let pkgs = vec![plan_pkg("selfish", vec!["selfish"], false)];
    match dag(&pkgs) {
        Err(Error::DependencyCycle { name }) => assert_eq!(name, "selfish"),
        _ => panic!("expected a dependency cycle error"),
    }
}

#[test]
fn dag_refuses_cycles() {
    let pkgs = vec![
        plan_pkg("a", vec!["b"], false),
        plan_pkg("b", vec!["a"], false),
    ];
    match dag(&pkgs) {
        Err(Error::DependencyCycle { .. }) => {}
        _ => panic!("expected a dependency cycle error"),
    }
}

#[test]
fn dag_ignores_external_dependencies() {
    let pkgs = vec![plan_pkg("a", vec!["some-registry-crate"], false)];
    let ord = dag(&pkgs).expect("no cycle");
    assert_eq!(ord, vec![0]);
}

#[test]
fn publish_output_markers() {
    assert!(publish_output_ok("    Uploading alpha v1.0.0"));
    assert!(!publish_output_ok("    Uploading alpha\nerror: upload failed"));
    assert!(!publish_output_ok("nothing to see"));
    assert!(!publish_output_ok("error: denied"));
}

fn expect_query(a: &PublishAction) -> String {
    match a {
        PublishAction::QueryIndex { name, version, registry } => {
            assert_eq!(version, "1.0.0");
            assert!(registry.is_none());
            name.clone()
        }
        _ => panic!("expected an index query"),
    }
}

#[test]
fn pipeline_publishes_in_dependency_order() {
    // first run: A publishes, then B fails (no upload marker); the pipeline
    // stops. A re-run finds A already published, skips it, and publishes B
    // then C: idempotent resumption in the same relative order.
    let opts = publish_opts();
    let (mut st, a0) = opts.run(chain_plan()).expect("plan");
    assert_eq!(expect_query(&a0), "a");

    // a is not yet published: publish it
    let a1 = opts.on_index(&mut st, false);
    let args = match a1 {
        PublishAction::RunPublish { args } => args,
        _ => panic!("expected the publish command"),
    };
    assert_eq!(
        args,
        vec!["publish", "--manifest-path", "/ws/a/Cargo.toml"]
    );
    let a2 = opts
        .on_publish_output(&mut st, " Uploading a v1.0.0")
        .expect("a uploads");
    assert!(matches!(a2, PublishAction::PollIndex { .. }));
    // the index shows it after one extra poll
    let a3 = opts.on_poll(&mut st, false).expect("keep polling");
    assert!(matches!(a3, PublishAction::PollIndex { .. }));
    let a4 = opts.on_poll(&mut st, true).expect("a visible");
    assert_eq!(expect_query(&a4), "b");

    // b's publish produces no upload marker: the run aborts
    let _ = opts.on_index(&mut st, false);
    match opts.on_publish_output(&mut st, "error: network") {
        Err(Error::Publish(name)) => assert_eq!(name, "b"),
        _ => panic!("expected a publish failure for b"),
    }

    // second run with the same plan: a is skipped, b and c publish
    let (mut st2, b0) = opts.run(chain_plan()).expect("plan");
    assert_eq!(expect_query(&b0), "a");
    let b1 = opts.on_index(&mut st2, true);
    assert_eq!(expect_query(&b1), "b");
    let b2 = opts.on_index(&mut st2, false);
    assert!(matches!(b2, PublishAction::RunPublish { .. }));
    let b3 = opts
        .on_publish_output(&mut st2, " Uploading b v1.0.0")
        .expect("b uploads");
    assert!(matches!(b3, PublishAction::PollIndex { .. }));
    let b4 = opts.on_poll(&mut st2, true).expect("b visible");
    assert_eq!(expect_query(&b4), "c");
    let b5 = opts.on_index(&mut st2, false);
    assert!(matches!(b5, PublishAction::RunPublish { .. }));
    let b6 = opts
        .on_publish_output(&mut st2, " Uploading c v1.0.0")
        .expect("c uploads");
    assert!(matches!(b6, PublishAction::PollIndex { .. }));
    let b7 = opts.on_poll(&mut st2, true).expect("c visible");
    assert!(matches!(b7, PublishAction::Done));
}

#[test]
fn pipeline_skips_private_packages() {
    let opts = publish_opts();
    let plan = vec![
        plan_pkg("pub1", vec![], false),
        plan_pkg("hidden", vec![], true),
    ];
    let (st, a0) = opts.run(plan).expect("plan");
    assert_eq!(st.order.len(), 1);
    assert_eq!(expect_query(&a0), "pub1");
}

#[test]
fn pipeline_times_out_after_the_poll_bound() {
    let opts = publish_opts();
    let (mut st, _) = opts.run(vec![plan_pkg("a", vec![], false)]).expect("plan");
    let _ = opts.on_index(&mut st, false);
    let _ = opts
        .on_publish_output(&mut st, " Uploading a v1.0.0")
        .expect("a uploads");
    let mut polls: u64 = 0;
    loop {
        match opts.on_poll(&mut st, false) {
            Ok(PublishAction::PollIndex { .. }) => polls += 1,
            Err(Error::PublishTimeout) => break,
            _ => panic!("expected polling or a timeout"),
        }
        assert!(polls <= 10_000, "poll is not bounded");
    }
    assert_eq!(polls, 60);
}

#[test]
fn publish_flags_reflected_in_arguments() {
    let opts = Publish {
        from_git: false,
        skip_published: true,
        skip_verification: true,
        allow_dirty: true,
        token: Some("SECRET-REDACTED".to_string()),
        registry: Some("internal".to_string()),
    };
    let (mut st, _) = opts.run(vec![plan_pkg("a", vec![], false)]).expect("plan");
    match opts.on_index(&mut st, false) {
        PublishAction::RunPublish { args } => {
            assert_eq!(
                args,
                vec![
                    "publish",
                    "--no-verify",
                    "--allow-dirty",
                    "--registry",
                    "internal",
                    "--token",
                    "SECRET-REDACTED",
                    "--manifest-path",
                    "/ws/a/Cargo.toml"
                ]
            );
        }
        _ => panic!("expected the publish command"),
    }
}

#[test]
fn named_registry_resolved_from_publish_list() {
    let opts = publish_opts();
    let mut pkg = plan_pkg("a", vec![], false);
    pkg.0.publish = Some(vec!["internal".to_string()]);
    let (st, a0) = opts.run(vec![pkg]).expect("plan");
    assert_eq!(st.order.len(), 1);
    match a0 {
        PublishAction::QueryIndex { name, registry, .. } => {
            assert_eq!(name, "a");
            assert_eq!(registry, Some("internal".to_string()));
        }
        _ => panic!("expected an index query"),
    }
}
