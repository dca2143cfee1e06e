use repolith::cli::{
    env_allowed, filtered_env, log_filter, matching, preview, resolve_forced, select,
};
use repolith::graph::ActionSpec;
use repolith::idmap::IdMap;
use repolith::plan::{Plan, Probe};
use repolith::types::{ActionId, Sha256};

fn aid(s: &str) -> ActionId {
    ActionId(s.to_string())
}

/// Two nodes with one action each, neither ever built.
fn two_nodes() -> Vec<ActionId> {
    vec![aid("alpha::cargo-install::0"), aid("beta::cargo-install::0")]
}

fn plan(ids: &[ActionId], forced: Vec<ActionId>) -> Plan {
    let mut probes = IdMap::new();
    let mut specs = Vec::new();
    for id in ids {
        probes.insert(id.clone(), Probe { hash: Ok(Sha256([1; 32])), last: None, present: true });
        specs.push(ActionSpec { id: id.clone(), deps: vec![] });
    }
    Plan::compute_with_forced(specs, &probes, None, forced).unwrap()
}

#[test]
fn dry_run_empty_manifest_reports_zero() {
    let lines = preview(&plan(&[], vec![]), false, true);
    assert_eq!(lines, vec!["up to date — no stale actions", "dry-run: 0 action(s) would run"]);
}

#[test]
fn dry_run_minimal_manifest_reports_one() {
    let lines = preview(&plan(&[aid("local-thing::cargo-install::0")], vec![]), false, true);
    assert!(lines.contains(&"dry-run: 1 action(s) would run".to_string()), "{lines:?}");
}

#[test]
fn explain_prints_change_reason() {
    let lines = preview(&plan(&[aid("local-thing::cargo-install::0")], vec![]), true, true);
    assert_eq!(
        lines,
        vec![
            "• local-thing::cargo-install::0: never built [NoCachedBuild]",
            "dry-run: 1 action(s) would run",
        ]
    );
}

#[test]
fn an_ordinary_sync_explains_nothing() {
    assert!(preview(&plan(&two_nodes(), vec![]), false, false).is_empty());
    assert_eq!(preview(&plan(&[], vec![]), false, false), vec!["up to date — 0 stale actions"]);
    assert_eq!(preview(&plan(&[], vec![]), true, false), vec!["up to date — no stale actions"]);
}

#[test]
fn status_filter_matches_every_action_of_a_node() {
    let ids = vec![aid("alpha::git-clone::0"), aid("beta::docker::0"), aid("alpha::docker::1")];
    assert_eq!(
        select(&ids, "alpha").unwrap(),
        vec![aid("alpha::git-clone::0"), aid("alpha::docker::1")]
    );
    assert_eq!(matching(&ids, ""), ids);
}

#[test]
fn status_filter_matching_nothing_exits_nonzero() {
    let err = select(&two_nodes(), "gamma").unwrap_err();
    assert_eq!(
        err,
        "no action id contains `gamma` — run `repolith status` with no argument to list them"
    );
    assert!(select(&vec![], "").is_err());
}

#[test]
fn force_marks_a_fresh_manifest_forced_not_never_built() {
    let ids = two_nodes();
    let forced = resolve_forced(&ids, &Some(String::new())).unwrap();
    let lines = preview(&plan(&ids, forced), true, true);
    assert!(lines.contains(&"• alpha::cargo-install::0: forced [Forced]".to_string()), "{lines:?}");
    assert!(lines.contains(&"• beta::cargo-install::0: forced [Forced]".to_string()), "{lines:?}");
    assert!(lines.contains(&"dry-run: 2 action(s) would run".to_string()), "{lines:?}");
}

#[test]
fn force_with_a_filter_narrows_to_matching_actions() {
    let ids = two_nodes();
    let forced = resolve_forced(&ids, &Some("beta".to_string())).unwrap();
    assert_eq!(forced, vec![aid("beta::cargo-install::0")]);
    let lines = preview(&plan(&ids, forced), true, true);
    assert!(lines.contains(&"• beta::cargo-install::0: forced [Forced]".to_string()), "{lines:?}");
    assert!(!lines.join("\n").contains("alpha::cargo-install::0: forced"), "{lines:?}");
}

#[test]
fn force_with_an_unmatched_filter_exits_nonzero() {
    let err = resolve_forced(&two_nodes(), &Some("gamma".to_string())).unwrap_err();
    assert!(err.contains("gamma"));
}

#[test]
fn force_over_an_empty_manifest_is_not_an_error() {
    assert_eq!(resolve_forced(&vec![], &Some(String::new())), Ok(vec![]));
    assert_eq!(resolve_forced(&two_nodes(), &None), Ok(vec![]));
}

#[test]
fn secrets_stay_out_of_the_environment() {
    let var = |k: &str| (k.to_string(), "v".to_string());
    let vars = vec![var("PATH"), var("GITHUB_TOKEN"), var("HOME"), var("GIT_SSH_COMMAND")];
    assert_eq!(filtered_env(&vars), vec![var("PATH"), var("HOME")]);
    for name in [
        "PATH", "HOME", "USER", "SHELL", "TMPDIR", "CARGO_HOME", "RUSTUP_HOME",
        "RUSTUP_TOOLCHAIN", "RUST_LOG", "RUST_BACKTRACE", "TZ", "LANG", "LC_ALL",
        "SSH_AUTH_SOCK", "XDG_CONFIG_HOME",
    ] {
        assert!(env_allowed(name), "{name}");
    }
    assert!(!env_allowed("AWS_SECRET_ACCESS_KEY"));
    assert!(!env_allowed("path"));
}

#[test]
fn verbosity_raises_the_log_level() {
    assert_eq!(
        log_filter(0),
        "warn,repolith=info,repolith_engine=info,repolith_cache=info,repolith_actions=info"
    );
    assert!(log_filter(1).contains("repolith=debug"));
    assert!(log_filter(2).contains("repolith_cache=trace"));
    assert!(log_filter(255).contains("repolith_cache=trace"));
}
