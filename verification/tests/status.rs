use repolith::graph::ActionSpec;
use repolith::idmap::IdMap;
use repolith::manifest::{ActionEntry, Manifest, NodeEntry, OrchestratorMeta};
use repolith::plan::{Plan, Probe};
use repolith::status::{
    action_lines, declared_lines, detail_block, field, hash_lines, last_run_lines, manifest_entry,
    status_rows, status_table, ActionFacts, LABEL_W,
};
use repolith::types::{ActionId, BuildError, BuildEvent, BuildRecord, Sha256};

fn aid(s: &str) -> ActionId {
    ActionId(s.to_string())
}

fn install(crate_name: Option<&str>) -> ActionEntry {
    ActionEntry::CargoInstall {
        crate_name: crate_name.map(str::to_string),
        package: None,
        features: vec![],
        profile: None,
        install_to: None,
    }
}

fn manifest(nodes: Vec<NodeEntry>) -> Manifest {
    Manifest {
        orchestrator: OrchestratorMeta {
            schema_version: "0.1".to_string(),
            name: "t".to_string(),
        },
        nodes,
    }
}

/// `a` is up to date, `b` depends on it and was never built.
fn plan() -> Plan {
    let mut probes = IdMap::new();
    let success = BuildEvent::Success {
        id: aid("a"),
        input: Sha256([1; 32]),
        output: Sha256([1; 32]),
        ms: 1,
    };
    probes.insert(
        aid("a"),
        Probe { hash: Ok(Sha256([1; 32])), last: Some(success), present: true },
    );
    probes.insert(aid("b"), Probe { hash: Ok(Sha256([2; 32])), last: None, present: false });
    let specs = vec![
        ActionSpec { id: aid("a"), deps: vec![] },
        ActionSpec { id: aid("b"), deps: vec![aid("a")] },
    ];
    Plan::compute(specs, &probes, None).unwrap()
}

#[test]
fn manifest_entry_finds_the_declaring_node() {
    let m = manifest(vec![NodeEntry {
        id: "alpha".to_string(),
        git: None,
        path: Some("/tmp/a".to_string()),
        actions: vec![ActionEntry::GitClone, install(Some("alpha"))],
    }]);
    assert!(m.validate().is_ok(), "fixture is valid");

    let (node, entry) =
        manifest_entry(&m, &aid("alpha::cargo-install::1")).expect("second action of alpha");
    assert_eq!(node.id, "alpha");
    assert!(
        matches!(entry, ActionEntry::CargoInstall { crate_name, .. }
                 if crate_name.as_deref() == Some("alpha")),
        "index 1 must resolve to the cargo-install, not the git-clone"
    );
    assert!(
        manifest_entry(&m, &aid("alpha::cargo-install::0")).is_none(),
        "the index is part of the id; a wrong one must not match"
    );
}

/// Continuation lines of a value line up under the first.
#[test]
fn multi_line_values_indent_to_the_value_column() {
    let pad = " ".repeat(2 + LABEL_W);
    assert_eq!(pad.len(), 14);
    assert_eq!(format!("  {:<LABEL_W$}", "error").len(), pad.len());

    assert_eq!(
        field("error", "first\nsecond\r\nthird\n"),
        vec![
            "  error       first".to_string(),
            format!("{pad}second"),
            format!("{pad}third"),
        ]
    );
    assert_eq!(field("error", ""), vec!["  error       "]);
    assert_eq!(field("a very long label", "v"), vec!["  a very long labelv"]);
}

#[test]
fn status_prints_table_with_action_row() {
    assert_eq!(
        status_rows(&plan()),
        vec![vec!["a", "up-to-date", "—"], vec!["b", "stale", "never built"]]
    );
}

#[test]
fn status_without_filter_still_renders_a_table() {
    let table = status_table(&plan());
    assert!(table.contains("Action"));
    assert!(table.contains("Reason"));
    assert!(table.contains("+---"));
    assert!(table.contains("never built"));
    assert!(!table.contains("state       "));
}

#[test]
fn the_last_run_is_told_with_its_age_and_its_error() {
    assert_eq!(
        last_run_lines(&None, 0),
        vec!["  last run    never — nothing cached for this id"]
    );
    let ok = BuildRecord {
        event: BuildEvent::Success {
            id: aid("a"),
            input: Sha256([1; 32]),
            output: Sha256([1; 32]),
            ms: 26_800,
        },
        recorded_at: Some(1_000),
    };
    assert_eq!(
        last_run_lines(&Some(ok), 121_000),
        vec!["  last run    succeeded in 26.8 s, 2 minutes ago"]
    );
    let failed = BuildRecord {
        event: BuildEvent::Failed {
            id: aid("a"),
            input: Sha256([1; 32]),
            error: BuildError::CommandFailed { exit_code: 1, stderr: "one\ntwo".to_string() },
            ms: 5,
        },
        recorded_at: None,
    };
    assert_eq!(
        last_run_lines(&Some(failed), 0),
        vec![
            "  last run    failed in 5 ms, date not recorded by this cache",
            "  error       Command failed: 1: one",
            "              two",
        ]
    );
}

#[test]
fn hashes_are_shown_in_full() {
    let record = || {
        Some(BuildRecord {
            event: BuildEvent::Failed {
                id: aid("a"),
                input: Sha256([0xab; 32]),
                error: BuildError::Cancelled,
                ms: 5,
            },
            recorded_at: None,
        })
    };
    let cached = format!("  input       cached   {}", "ab".repeat(32));
    let current = format!("current  {}", "cd".repeat(32));
    assert_eq!(
        hash_lines(&record(), &Some(Sha256([0xcd; 32]))),
        vec![cached.clone(), format!("              {current}")]
    );
    assert_eq!(hash_lines(&record(), &None), vec![cached]);
    assert_eq!(
        hash_lines(&None, &Some(Sha256([0xcd; 32]))),
        vec![format!("  input       {current}")]
    );
    assert!(hash_lines(&None, &None).is_empty());
}

#[test]
fn dependencies_come_with_their_state() {
    let p = plan();
    assert_eq!(
        action_lines(&vec![], true, &p),
        vec!["  deps        none", "  artifact    present"]
    );
    assert_eq!(
        action_lines(&vec![aid("a"), aid("b")], false, &p),
        vec![
            "  deps        a (up-to-date)",
            "              b (stale)",
            "  artifact    missing",
        ]
    );
}

#[test]
fn declared_inputs_are_listed() {
    let m = manifest(vec![
        NodeEntry {
            id: "alpha".to_string(),
            git: Some("https://example.com/a".to_string()),
            path: None,
            actions: vec![
                ActionEntry::GitClone,
                ActionEntry::CargoInstall {
                    crate_name: Some("bin".to_string()),
                    package: Some("alpha-pkg".to_string()),
                    features: vec!["extra".to_string(), "more".to_string()],
                    profile: Some("dev".to_string()),
                    install_to: Some("~/x".to_string()),
                },
                install(None),
            ],
        },
        NodeEntry {
            id: "beta".to_string(),
            git: None,
            path: Some("b".to_string()),
            actions: vec![
                ActionEntry::Docker {
                    tag: "t:1".to_string(),
                    dockerfile: Some("D".to_string()),
                    context: Some("c".to_string()),
                },
                ActionEntry::Repolith { manifest: None },
                ActionEntry::Repolith { manifest: Some("m.toml".to_string()) },
            ],
        },
    ]);
    assert_eq!(
        declared_lines(&m, &aid("alpha::git-clone::0")),
        vec!["  source      git  https://example.com/a", "  action      git-clone"]
    );
    assert_eq!(
        declared_lines(&m, &aid("alpha::cargo-install::1")),
        vec![
            "  source      git  https://example.com/a",
            "  action      cargo-install",
            "  bin         bin",
            "  package     alpha-pkg",
            "  profile     dev",
            "  features    extra, more",
            "  install to  ~/x",
        ]
    );
    assert_eq!(
        declared_lines(&m, &aid("alpha::cargo-install::2")),
        vec![
            "  source      git  https://example.com/a",
            "  action      cargo-install",
            "  profile     release (cargo default)",
        ]
    );
    assert_eq!(
        declared_lines(&m, &aid("beta::docker::0")),
        vec![
            "  source      path b",
            "  action      docker",
            "  tag         t:1",
            "  dockerfile  D",
            "  context     c",
        ]
    );
    assert_eq!(
        declared_lines(&m, &aid("beta::repolith::1")),
        vec!["  source      path b", "  action      repolith", "  manifest    repolith.toml"]
    );
    assert_eq!(
        declared_lines(&m, &aid("beta::repolith::2")),
        vec!["  source      path b", "  action      repolith", "  manifest    m.toml"]
    );
    assert!(declared_lines(&m, &aid("gamma::docker::0")).is_empty());
}

#[test]
fn status_with_filter_prints_a_detail_block() {
    let p = plan();
    let facts = ActionFacts { record: None, registered: Some((vec![aid("a")], false)) };
    assert_eq!(
        detail_block(&p, &aid("b"), &facts, &None, 0),
        vec![
            "b".to_string(),
            "  state       stale".to_string(),
            "  reason      never built".to_string(),
            "  last run    never — nothing cached for this id".to_string(),
            format!("  input       current  {}", "02".repeat(32)),
            "  deps        a (up-to-date)".to_string(),
            "  artifact    missing".to_string(),
        ]
    );
    let facts = ActionFacts { record: None, registered: None };
    assert_eq!(
        detail_block(&p, &aid("a"), &facts, &Some(manifest(vec![])), 0),
        vec![
            "a".to_string(),
            "  state       up-to-date".to_string(),
            "  last run    never — nothing cached for this id".to_string(),
            format!("  input       current  {}", "01".repeat(32)),
        ]
    );
}

/// The detail block hands back the whole error that the table had to cut, and
/// names the action that this one waits for.
#[test]
fn status_detail_shows_the_full_error_and_the_dependency_edge() {
    let m = manifest(vec![NodeEntry {
        id: "nope".to_string(),
        git: Some("file:///srv/origin".to_string()),
        path: Some("/srv/checkout".to_string()),
        actions: vec![ActionEntry::GitClone, install(Some("nope"))],
    }]);
    let (clone, install) = (aid("nope::git-clone::0"), aid("nope::cargo-install::1"));
    let input = Sha256([7; 32]);
    let cloned = BuildEvent::Success { id: clone.clone(), input, output: input, ms: 3 };
    let stderr = format!("error: could not find `Cargo.toml`{}", " in any parent".repeat(9));
    let failed = BuildEvent::Failed {
        id: install.clone(),
        input,
        error: BuildError::CommandFailed { exit_code: 101, stderr: stderr.clone() },
        ms: 9,
    };
    let mut probes = IdMap::new();
    probes.insert(clone.clone(), Probe { hash: Ok(input), last: Some(cloned), present: true });
    probes.insert(
        install.clone(),
        Probe { hash: Ok(input), last: Some(failed.clone()), present: false },
    );
    let specs = vec![
        ActionSpec { id: clone.clone(), deps: vec![] },
        ActionSpec { id: install.clone(), deps: vec![clone.clone()] },
    ];
    let plan = Plan::compute(specs, &probes, None).unwrap();
    let facts = ActionFacts {
        record: Some(BuildRecord { event: failed, recorded_at: Some(1_000) }),
        registered: Some((vec![clone], false)),
    };
    let out = detail_block(&plan, &install, &facts, &Some(m), 2_000).join("\n");
    for part in ["nope::cargo-install::1", "previous run failed", "last run", "nope::git-clone::0"] {
        assert!(out.contains(part), "missing {part}: {out}");
    }
    assert!(out.contains(&stderr), "the whole error: {out}");
    assert!(!out.contains("date not recorded"), "{out}");
}
