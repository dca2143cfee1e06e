use repolith::graph::ActionSpec;
use repolith::idmap::IdMap;
use repolith::plan::{ChangeReason, Plan, PlanError, Planner, Probe};
use repolith::types::{ActionId, BuildError, BuildEvent, Sha256};

/// An action whose id, dependencies and input hash are known up front.
struct StubAction {
    id: ActionId,
    deps: Vec<ActionId>,
    hash: Sha256,
    present: bool,
}

impl StubAction {
    fn new(name: &str, deps: &[&str], hash_byte: u8) -> Self {
        Self {
            id: aid(name),
            deps: deps.iter().map(|d| aid(d)).collect(),
            hash: Sha256([hash_byte; 32]),
            present: true,
        }
    }

    /// An artifact that is gone from this machine.
    fn without_artifact(mut self) -> Self {
        self.present = false;
        self
    }
}

fn aid(s: &str) -> ActionId {
    ActionId(s.to_string())
}

/// Probes the actions against the recorded events and plans them.
fn compute_with(
    actions: Vec<StubAction>,
    recorded: Vec<BuildEvent>,
    cancel_at: Option<usize>,
    forced: Vec<ActionId>,
) -> Result<Plan, PlanError> {
    let mut probes = IdMap::new();
    let mut specs = Vec::new();
    for a in actions {
        let last = recorded.iter().find(|e| *e.id() == a.id).cloned();
        probes.insert(a.id.clone(), Probe { hash: Ok(a.hash), last, present: a.present });
        specs.push(ActionSpec { id: a.id, deps: a.deps });
    }
    Plan::compute_with_forced(specs, &probes, cancel_at, forced)
}

fn compute(actions: Vec<StubAction>, recorded: Vec<BuildEvent>) -> Result<Plan, PlanError> {
    compute_with(actions, recorded, None, vec![])
}

fn success(id: &str, byte: u8) -> BuildEvent {
    BuildEvent::Success {
        id: aid(id),
        input: Sha256([byte; 32]),
        output: Sha256([byte; 32]),
        ms: 1,
    }
}

#[test]
fn test_diamond_layers() {
    // A → {B, C} → D ; expected layers: [[A], [B,C], [D]]
    let actions = vec![
        StubAction::new("A", &[], 0),
        StubAction::new("B", &["A"], 0),
        StubAction::new("C", &["A"], 0),
        StubAction::new("D", &["B", "C"], 0),
    ];
    let plan = compute(actions, vec![]).unwrap();
    let layers = plan.layers();
    assert_eq!(layers.len(), 3, "expected 3 layers, got {layers:?}");
    assert_eq!(layers[0], vec![aid("A")]);
    assert_eq!(layers[1], vec![aid("B"), aid("C")]); // sorted alphabetically
    assert_eq!(layers[2], vec![aid("D")]);
    assert_eq!(plan.flat_topo(), vec![aid("A"), aid("B"), aid("C"), aid("D")]);
    assert_eq!(plan.stale().len(), 4);
}

#[test]
fn test_cycle() {
    // A → B → C → A
    let actions = vec![
        StubAction::new("A", &["C"], 0),
        StubAction::new("B", &["A"], 0),
        StubAction::new("C", &["B"], 0),
    ];
    match compute(actions, vec![]).unwrap_err() {
        PlanError::Cycle(ids) => assert_eq!(ids, vec![aid("A"), aid("B"), aid("C")]),
        other => panic!("expected Cycle, got {other:?}"),
    }
}

#[test]
fn test_missing_dep() {
    let actions = vec![StubAction::new("A", &["GHOST"], 0)];
    match compute(actions, vec![]).unwrap_err() {
        PlanError::MissingDep { from, to } => {
            assert_eq!(from, aid("A"));
            assert_eq!(to, aid("GHOST"));
        }
        other => panic!("expected MissingDep, got {other:?}"),
    }
}

#[test]
fn test_hash_changed() {
    let cached = Sha256([0x01; 32]);
    let actions = vec![StubAction::new("A", &[], 0x02)];
    let event = BuildEvent::Success {
        id: aid("A"),
        input: cached,
        output: Sha256([0; 32]),
        ms: 1,
    };
    let plan = compute(actions, vec![event]).unwrap();
    match plan.reasons().get(&aid("A")) {
        Some(ChangeReason::InputHashChanged { from, to }) => {
            assert_eq!(*from, cached);
            assert_eq!(*to, Sha256([0x02; 32]));
        }
        other => panic!("expected InputHashChanged, got {other:?}"),
    }
    assert_eq!(plan.input_hash(&aid("A")), Some(Sha256([0x02; 32])));
    assert_eq!(plan.input_hash(&aid("absent")), None);
}

#[test]
fn test_cascade_upstream_moved() {
    // A: no cached build → stale. B depends on A and is unchanged → UpstreamMoved{A}
    let actions = vec![StubAction::new("A", &[], 0x01), StubAction::new("B", &["A"], 0x42)];
    let plan = compute(actions, vec![success("B", 0x42)]).unwrap();
    assert_eq!(plan.reasons().get(&aid("A")), Some(&ChangeReason::NoCachedBuild));
    match plan.reasons().get(&aid("B")) {
        Some(ChangeReason::UpstreamMoved { dep }) => assert_eq!(*dep, aid("A")),
        other => panic!("expected UpstreamMoved, got {other:?}"),
    }
}

#[test]
fn test_failed_prior_rebuilds() {
    let actions = vec![StubAction::new("A", &[], 0x01)];
    let event = BuildEvent::Failed {
        id: aid("A"),
        input: Sha256([0x01; 32]),
        error: BuildError::Cancelled,
        ms: 1,
    };
    let plan = compute(actions, vec![event]).unwrap();
    assert!(
        matches!(plan.reasons().get(&aid("A")), Some(ChangeReason::PreviousFailure { .. })),
        "got {:?}",
        plan.reasons().get(&aid("A"))
    );
    assert_eq!(plan.reasons().len(), 1, "still stale, still re-runs");
}

#[test]
fn test_empty_actions() {
    let plan = compute(vec![], vec![]).unwrap();
    assert!(plan.layers().is_empty());
    assert!(plan.reasons().is_empty());
    assert_eq!(plan.stale().len(), 0);
}

#[test]
fn test_cancel_during_compute_returns_cancelled() {
    let actions = vec![StubAction::new("A", &[], 0), StubAction::new("B", &["A"], 0)];
    match compute_with(actions, vec![], Some(0), vec![]).unwrap_err() {
        PlanError::Build(BuildError::Cancelled) => (),
        other => panic!("expected Build(Cancelled), got {other:?}"),
    }
    let actions = vec![StubAction::new("A", &[], 0), StubAction::new("B", &["A"], 0)];
    match compute_with(actions, vec![], Some(1), vec![]).unwrap_err() {
        PlanError::Build(BuildError::Cancelled) => (),
        other => panic!("expected Build(Cancelled), got {other:?}"),
    }
}

/// A probe that was interrupted ends planning, even where its peers answered.
#[test]
fn test_cancel_during_layer_fanout_short_circuits() {
    let specs: Vec<ActionSpec> = (0..4)
        .map(|i| ActionSpec { id: aid(&format!("slow-{i}")), deps: vec![] })
        .collect();
    let planner = Planner::start(specs, vec![]).unwrap();
    assert_eq!(planner.pending().map(|l| l.len()), Some(4));
    let probes: Vec<Probe> = (0..4)
        .map(|i| Probe {
            hash: if i == 0 { Ok(Sha256([0; 32])) } else { Err(BuildError::Cancelled) },
            last: None,
            present: true,
        })
        .collect();
    match planner.settle(false, &probes) {
        Err(PlanError::Build(BuildError::Cancelled)) => (),
        other => panic!("expected Build(Cancelled), got {:?}", other.err()),
    }
}

/// A recorded success is no proof that the artifact is on this machine.
#[test]
fn artifact_missing_is_stale_even_when_the_hash_matches() {
    let action = StubAction::new("a", &[], 1).without_artifact();
    let plan = compute(vec![action], vec![success("a", 1)]).expect("plan");
    assert_eq!(
        plan.reasons().get(&aid("a")),
        Some(&ChangeReason::OutputMissing),
        "a cached Success with no artifact on this machine must be stale"
    );
}

#[test]
fn artifact_present_with_matching_hash_stays_up_to_date() {
    let plan = compute(vec![StubAction::new("a", &[], 1)], vec![success("a", 1)]).expect("plan");
    assert!(plan.reasons().is_empty(), "got {:?}", plan.reasons());
}

#[test]
fn changed_hash_outranks_missing_artifact() {
    let action = StubAction::new("a", &[], 1).without_artifact();
    let plan = compute(vec![action], vec![success("a", 9)]).expect("plan");
    assert!(
        matches!(plan.reasons().get(&aid("a")), Some(ChangeReason::InputHashChanged { .. })),
        "got {:?}",
        plan.reasons().get(&aid("a"))
    );
}

#[test]
fn prior_failure_is_named_and_still_stale() {
    let event = BuildEvent::Failed {
        id: aid("a"),
        input: Sha256([1; 32]),
        error: BuildError::CommandFailed {
            exit_code: 101,
            stderr: "error: does not contain a Cargo.toml file".to_string(),
        },
        ms: 5,
    };
    let plan = compute(vec![StubAction::new("a", &[], 1)], vec![event]).expect("plan");
    match plan.reasons().get(&aid("a")) {
        Some(ChangeReason::PreviousFailure { error }) => {
            assert!(error.contains("Cargo.toml"), "the recorded stderr must survive, got: {error}");
        }
        other => panic!("expected PreviousFailure, got {other:?}"),
    }
    assert_eq!(plan.reasons().len(), 1, "and it must still be stale");
}

#[test]
fn absent_entry_is_still_no_cached_build() {
    let plan = compute(vec![StubAction::new("a", &[], 1)], vec![]).expect("plan");
    assert_eq!(plan.reasons().get(&aid("a")), Some(&ChangeReason::NoCachedBuild));
}

#[test]
fn display_is_short_and_readable() {
    let changed = ChangeReason::InputHashChanged { from: Sha256([0; 32]), to: Sha256([255; 32]) };
    let s = changed.to_string();
    assert_eq!(s, "inputs changed (00000000 -> ffffffff)");
    assert!(s.len() < 60, "must fit a table cell, got {} chars", s.len());

    assert_eq!(ChangeReason::NoCachedBuild.to_string(), "never built");
    assert_eq!(ChangeReason::OutputMissing.to_string(), "artifact missing");
    assert_eq!(
        ChangeReason::UpstreamMoved { dep: aid("dep::x::0") }.to_string(),
        "upstream dep::x::0 is stale"
    );
}

#[test]
fn multiline_failure_is_truncated_to_one_line() {
    let reason = ChangeReason::PreviousFailure {
        error: "error: the real message\n  --> context line\n  note: more".to_string(),
    };
    let s = reason.to_string();
    assert!(s.contains("the real message"), "keeps the first line: {s}");
    assert!(!s.contains("context line"), "drops the rest: {s}");
    assert!(!s.contains('\n'), "single line for a table cell: {s}");
}

#[test]
fn very_long_failure_is_capped() {
    let reason = ChangeReason::PreviousFailure { error: "x".repeat(300) };
    let s = reason.to_string();
    assert!(s.len() < 110, "capped, got {} chars", s.len());
    assert!(s.ends_with("..."), "signals truncation: {s}");
}

#[test]
fn forcing_marks_an_action_and_its_dependents() {
    let actions = vec![
        StubAction::new("A", &[], 1),
        StubAction::new("B", &["A"], 2),
        StubAction::new("C", &[], 3),
    ];
    let recorded = vec![success("A", 1), success("B", 2), success("C", 3)];
    let plan = compute_with(actions, recorded, None, vec![aid("A")]).unwrap();
    assert_eq!(plan.reasons().get(&aid("A")), Some(&ChangeReason::Forced));
    assert_eq!(
        plan.reasons().get(&aid("B")),
        Some(&ChangeReason::UpstreamMoved { dep: aid("A") })
    );
    assert_eq!(plan.reasons().get(&aid("C")), None);
    assert_eq!(ChangeReason::Forced.to_string(), "forced");
}

#[test]
fn reasons_have_names() {
    let zero = Sha256([0; 32]);
    let names: Vec<&str> = [
        ChangeReason::NoCachedBuild,
        ChangeReason::Forced,
        ChangeReason::InputHashChanged { from: zero, to: zero },
        ChangeReason::UpstreamMoved { dep: aid("A") },
        ChangeReason::OutputMissing,
        ChangeReason::PreviousFailure { error: "e".to_string() },
    ]
    .iter()
    .map(|r| r.name())
    .collect();
    assert_eq!(
        names,
        vec![
            "NoCachedBuild",
            "Forced",
            "InputHashChanged",
            "UpstreamMoved",
            "OutputMissing",
            "PreviousFailure",
        ]
    );
}

#[test]
fn a_failed_probe_ends_planning() {
    let mut probes = IdMap::new();
    probes.insert(
        aid("A"),
        Probe { hash: Err(BuildError::Io("gone".to_string())), last: None, present: true },
    );
    let specs = vec![ActionSpec { id: aid("A"), deps: vec![] }];
    let err = Plan::compute(specs, &probes, None).unwrap_err();
    assert!(matches!(&err, PlanError::Build(BuildError::Io(m)) if m == "gone"), "got {err:?}");
    assert!(err.to_string().contains("gone"));
}

#[test]
fn plan_errors_are_rendered() {
    let cycle = PlanError::Cycle(vec![aid("a"), aid("b")]);
    let missing = PlanError::MissingDep { from: aid("a"), to: aid("b") };
    assert!(cycle.to_string().contains('a'), "{}", cycle.to_string());
    assert!(missing.to_string().contains('b'), "{}", missing.to_string());
}
