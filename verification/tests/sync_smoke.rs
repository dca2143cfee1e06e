use repolith::cli::preview;
use repolith::cli_progress::CliProgress;
use repolith::execution::{Execution, ExecError, Next};
use repolith::factory::{build_actions_in, FactoryCtx};
use repolith::graph::ActionSpec;
use repolith::manifest::{ActionEntry, Manifest, NodeEntry, OrchestratorMeta};
use repolith::plan::{Plan, Planner, Probe};
use repolith::types::{
    ActionId, BuildError, BuildEvent, BuildOutput, ExecMode, Sha256,
};

fn install() -> ActionEntry {
    ActionEntry::CargoInstall {
        crate_name: None,
        package: None,
        features: vec![],
        profile: None,
        install_to: None,
    }
}

fn node(id: &str, git: Option<&str>, actions: Vec<ActionEntry>) -> NodeEntry {
    NodeEntry {
        id: id.to_string(),
        git: git.map(str::to_string),
        path: Some(format!("/srv/{id}")),
        actions,
    }
}

fn manifest(schema: &str, nodes: Vec<NodeEntry>) -> Manifest {
    Manifest {
        orchestrator: OrchestratorMeta {
            schema_version: schema.to_string(),
            name: "smoke".to_string(),
        },
        nodes,
    }
}

/// A mirror and two independent crates.
fn smoke() -> Manifest {
    manifest(
        "0.1",
        vec![
            node("a", Some("file:///srv/node-a"), vec![ActionEntry::GitClone]),
            node("b", None, vec![install()]),
            node("c", None, vec![install()]),
        ],
    )
}

fn specs(m: &Manifest) -> Vec<ActionSpec> {
    let fctx = FactoryCtx {
        base_dir: "/srv".to_string(),
        chain: vec!["/srv/repolith.toml".to_string()],
        mode: ExecMode::FailFast,
    };
    build_actions_in(m, &fctx, &None).unwrap().iter().map(|a| a.spec()).collect()
}

/// Plans, with one input hash for everything but what moved.
fn plan(m: &Manifest, recorded: &[BuildEvent], moved: &str) -> Plan {
    let mut planner = Planner::start(specs(m), vec![]).unwrap();
    while let Some(layer) = planner.pending() {
        let probes: Vec<Probe> = layer
            .iter()
            .map(|id| Probe {
                hash: Ok(Sha256([u8::from(id.0 == moved); 32])),
                last: recorded.iter().find(|e| e.id() == id).cloned(),
                present: true,
            })
            .collect();
        planner = planner.settle(false, &probes).unwrap();
    }
    planner.finish()
}

/// Runs a plan in which one action fails, and collects what is printed.
fn sync(plan: &Plan, failing: &str) -> (Result<Vec<BuildEvent>, ExecError>, Vec<String>) {
    let mut progress = CliProgress::new();
    let mut lines = preview(plan, false, false);
    let mut execution = Execution::new(plan, ExecMode::FailFast);
    loop {
        match execution.next_layer(false) {
            Next::Skip => continue,
            Next::Stopped | Next::Finished => break,
            Next::Run { index, total } => {
                let ids: Vec<ActionId> =
                    execution.running().unwrap().iter().map(|j| j.id.clone()).collect();
                lines.push(progress.on_layer_start(index, total, &ids));
                for (j, id) in ids.iter().enumerate() {
                    lines.push(progress.on_action_start(id, 0));
                    let outcome = if id.0 == failing {
                        Err(BuildError::UpstreamUnreachable("no such remote".to_string()))
                    } else {
                        Ok(BuildOutput { output_hash: Sha256([9; 32]), stdout: String::new() })
                    };
                    lines.push(match execution.complete(j, 5, outcome).unwrap().event {
                        BuildEvent::Success { id, ms, .. } => progress.on_action_ok(&id, ms),
                        BuildEvent::Failed { id, error, ms, .. } => {
                            progress.on_action_failed(&id, &error, ms)
                        }
                    });
                }
                lines.extend(progress.on_layer_end());
                execution.commit();
            }
        }
    }
    let outcome = execution.finish();
    let events = match &outcome {
        Ok(events) => events,
        Err(ExecError::LayerFailed { events }) => events,
        Err(other) => panic!("unexpected {other:?}"),
    };
    lines.extend(progress.summary(events));
    (outcome, lines)
}

fn count(lines: &[String], prefix: &str) -> usize {
    lines.iter().filter(|l| l.trim_start().starts_with(prefix)).count()
}

#[test]
fn first_run_3_successes() {
    let (outcome, lines) = sync(&plan(&smoke(), &[], ""), "");
    assert!(outcome.is_ok(), "sync must succeed");
    let oks = count(&lines, "OK   ");
    assert_eq!(oks, 3, "expected 3 OK lines, got {oks}: {lines:?}");
}

#[test]
fn second_run_zero_stale() {
    let m = smoke();
    let events = sync(&plan(&m, &[], ""), "").0.expect("first sync must succeed");
    let second = preview(&plan(&m, &events, ""), true, true).join("\n");
    assert!(second.contains("0 action(s) would run"), "{second}");
    assert!(
        !second.contains("NoCachedBuild"),
        "no action should be stale on a cache hit: {second}"
    );
    assert!(!second.contains("never built"), "{second}");
}

#[test]
fn cascade_node_a_changed() {
    let m = smoke();
    let events = sync(&plan(&m, &[], ""), "").0.expect("first sync must succeed");
    let out = preview(&plan(&m, &events, "a::git-clone::0"), true, true).join("\n");
    assert!(
        out.contains("a::git-clone::0"),
        "node-a git-clone action must be flagged stale: {out}"
    );
    assert!(
        out.contains("InputHashChanged"),
        "stale reason must be InputHashChanged: {out}"
    );
    assert!(out.contains("a::git-clone::0: inputs changed"), "{out}");
    assert!(!out.contains("b::cargo-install"), "b should not be stale: {out}");
    assert!(!out.contains("c::cargo-install"), "c should not be stale: {out}");
    assert!(out.contains("1 action(s) would run"), "{out}");
}

#[test]
fn failfast_halts_layer_two() {
    let m = manifest("0.1", vec![node("failing-node", None, vec![install(), install()])]);
    let (outcome, lines) = sync(&plan(&m, &[], ""), "failing-node::cargo-install::0");
    assert!(outcome.is_err(), "sync must fail when the first action errors");
    let fails = count(&lines, "FAIL ");
    let oks = count(&lines, "OK   ");
    assert_eq!(fails, 1, "expected exactly 1 FAIL line, got {fails}");
    assert_eq!(oks, 0, "cargo-install on layer 2 must be skipped, got {oks} OK lines");
    let stdout = lines.join("\n");
    assert!(
        stdout.contains("failing-node::cargo-install::0"),
        "FAIL line must reference the first action: {stdout}"
    );
    assert!(
        !stdout.contains("failing-node::cargo-install::1"),
        "second action must be skipped (no event): {stdout}"
    );
}

#[test]
fn invalid_schema_returns_error() {
    let err = Manifest::from_parsed(Ok(manifest("9.9", vec![]))).unwrap_err();
    assert!(err.to_string().contains("schema"), "{}", err.to_string());
}
