use repolith::execution::{terminal_of, ExecError, Execution, Next, Terminal};
use repolith::graph::ActionSpec;
use repolith::idmap::IdMap;
use repolith::orchestrator::{Builder, BuilderError, Ctx, Orchestrator};
use repolith::plan::{Plan, PlanError, Probe};
use repolith::progress::ProgressSink;
use repolith::types::{ActionId, BuildError, BuildEvent, BuildOutput, ExecMode, Sha256};
use std::sync::Mutex;

#[derive(Clone, Copy)]
enum Behavior {
    /// Succeeds after this many milliseconds, unless it is cancelled before.
    SucceedAfter(u128),
    FailImmediately,
}

struct TestAction {
    id: ActionId,
    deps: Vec<ActionId>,
    behavior: Behavior,
}

impl TestAction {
    fn new(name: &str, deps: &[&str], behavior: Behavior) -> Self {
        Self { id: aid(name), deps: deps.iter().map(|d| aid(d)).collect(), behavior }
    }
}

fn aid(s: &str) -> ActionId {
    ActionId(s.to_string())
}

type TestBuilder = Builder<TestAction, (), ()>;

fn builder() -> TestBuilder {
    Orchestrator::builder("/tmp".to_string())
}

/// Plans against an empty cache, or against one that holds a success for
/// everything.
fn plan(actions: &[TestAction], all_cached: bool, cancel_at: Option<usize>) -> Result<Plan, PlanError> {
    let mut probes = IdMap::new();
    let mut specs = Vec::new();
    for a in actions {
        let last = all_cached.then_some(BuildEvent::Success {
            id: a.id.clone(),
            input: Sha256([0; 32]),
            output: Sha256([0; 32]),
            ms: 0,
        });
        probes.insert(a.id.clone(), Probe { hash: Ok(Sha256([0; 32])), last, present: true });
        specs.push(ActionSpec { id: a.id.clone(), deps: a.deps.clone() });
    }
    Plan::compute(specs, &probes, cancel_at)
}

/// Counts what became of the actions.
#[derive(Default)]
struct TestState {
    started: usize,
    completed: usize,
    cancelled: usize,
    max_in_progress: usize,
}

/// Runs a plan: within a layer at most `limit` actions at a time, the quickest
/// first.
fn run(
    actions: &[TestAction],
    plan: &Plan,
    mode: ExecMode,
    limit: usize,
    state: &mut TestState,
    sink: &dyn ProgressSink,
) -> Result<Vec<BuildEvent>, ExecError> {
    let mut execution = Execution::new(plan, mode);
    loop {
        let index = match execution.next_layer(false) {
            Next::Skip => continue,
            Next::Stopped | Next::Finished => return execution.finish(),
            Next::Run { index, total } => {
                let ids: Vec<ActionId> =
                    execution.running().unwrap().iter().map(|j| j.id.clone()).collect();
                sink.on_layer_start(index, total, &ids);
                index
            }
        };
        let jobs: Vec<ActionId> =
            execution.running().unwrap().iter().map(|j| j.id.clone()).collect();
        let mut cancelled = false;
        let mut waiting: Vec<usize> = (0..jobs.len()).collect();
        while !waiting.is_empty() {
            let batch: Vec<usize> = waiting.drain(..waiting.len().min(limit)).collect();
            let mut batch: Vec<(u128, usize, Behavior)> = batch
                .into_iter()
                .map(|j| {
                    let behavior =
                        actions.iter().find(|a| a.id == jobs[j]).unwrap().behavior;
                    let ms = match behavior {
                        Behavior::SucceedAfter(ms) => ms,
                        Behavior::FailImmediately => 0,
                    };
                    (ms, j, behavior)
                })
                .collect();
            state.max_in_progress = state.max_in_progress.max(batch.len());
            for (_, j, _) in &batch {
                state.started += 1;
                sink.on_action_start(&jobs[*j]);
            }
            batch.sort_by_key(|(ms, j, _)| (*ms, *j));
            for (ms, j, behavior) in batch {
                let outcome = match behavior {
                    Behavior::FailImmediately => {
                        Err(BuildError::UpstreamUnreachable(jobs[j].0.clone()))
                    }
                    Behavior::SucceedAfter(_) if cancelled => {
                        state.cancelled += 1;
                        Err(BuildError::Cancelled)
                    }
                    Behavior::SucceedAfter(_) => {
                        state.completed += 1;
                        Ok(BuildOutput { output_hash: Sha256([0; 32]), stdout: String::new() })
                    }
                };
                let report = execution.complete(j, ms, outcome).expect("each job ends once");
                match (terminal_of(&report.event), &report.event) {
                    (Terminal::Succeeded, _) => sink.on_action_ok(&jobs[j], 0),
                    (Terminal::Cancelled, _) => sink.on_action_cancelled(&jobs[j], 0),
                    (Terminal::Failed, BuildEvent::Failed { error, .. }) => {
                        sink.on_action_failed(&jobs[j], error, 0);
                    }
                    (Terminal::Failed, _) => unreachable!(),
                }
                cancelled = cancelled || report.cancel_peers;
            }
        }
        sink.on_layer_end(index);
        assert!(execution.layer_events().is_some(), "every job of the layer ended");
        execution.commit();
    }
}

#[test]
fn failfast_cancels() {
    let actions = [
        TestAction::new("A", &[], Behavior::SucceedAfter(500)),
        TestAction::new("B", &[], Behavior::FailImmediately),
        TestAction::new("C", &[], Behavior::SucceedAfter(500)),
    ];
    let mut state = TestState::default();
    let p = plan(&actions, false, None).unwrap();
    let result =
        run(&actions, &p, ExecMode::FailFast, 8, &mut state, &Recorder::default());
    match result {
        Err(ExecError::LayerFailed { events }) => {
            assert_eq!(events.len(), 3, "every action should produce an event");
        }
        other => panic!("expected LayerFailed, got {other:?}"),
    }
    assert_eq!(state.cancelled, 2, "A and C must have observed the cancel before completing");
    assert_eq!(state.completed, 0, "no slow action should run to completion under FailFast");
}

#[test]
fn keepgoing_settles() {
    let actions = [
        TestAction::new("A", &[], Behavior::SucceedAfter(50)),
        TestAction::new("B", &[], Behavior::FailImmediately),
        TestAction::new("C", &[], Behavior::SucceedAfter(50)),
    ];
    let mut state = TestState::default();
    let p = plan(&actions, false, None).unwrap();
    let result =
        run(&actions, &p, ExecMode::KeepGoing, 8, &mut state, &Recorder::default());
    match result {
        Err(ExecError::LayerFailed { events }) => assert_eq!(events.len(), 3),
        other => panic!("expected LayerFailed, got {other:?}"),
    }
    assert_eq!(state.completed, 2, "A and C must run to completion under KeepGoing");
    assert_eq!(state.cancelled, 0);
}

#[test]
fn semaphore_limits() {
    let mut b = builder().cache(()).max_parallelism(2);
    for i in 0..10 {
        b = b.register(TestAction::new(&format!("a{i}"), &[], Behavior::SucceedAfter(20)));
    }
    let orch = b.build().unwrap();
    let mut state = TestState::default();
    let p = plan(orch.actions(), false, None).unwrap();
    let events = run(
        orch.actions(),
        &p,
        ExecMode::FailFast,
        orch.max_parallelism(),
        &mut state,
        &Recorder::default(),
    )
    .unwrap();
    assert_eq!(events.len(), 10);
    assert_eq!(state.completed, 10);
    assert!(state.max_in_progress <= 2, "max_in_progress was {}", state.max_in_progress);
}

#[test]
fn cascade_skip() {
    let actions = [
        TestAction::new("A", &[], Behavior::FailImmediately),
        TestAction::new("B", &["A"], Behavior::SucceedAfter(10)),
    ];
    let mut state = TestState::default();
    let p = plan(&actions, false, None).unwrap();
    assert_eq!(p.layers().len(), 2, "expected diamond layout");
    let result =
        run(&actions, &p, ExecMode::FailFast, 8, &mut state, &Recorder::default());
    assert!(matches!(result, Err(ExecError::LayerFailed { .. })));
    assert_eq!(state.started, 1, "only A should have started; B's layer must be skipped");
}

#[test]
fn empty_stale_returns_immediately() {
    let actions = [TestAction::new("A", &[], Behavior::SucceedAfter(60_000))];
    let mut state = TestState::default();
    let p = plan(&actions, true, None).unwrap();
    assert!(p.reasons().is_empty(), "everything cached → no stale actions");
    let events =
        run(&actions, &p, ExecMode::FailFast, 4, &mut state, &Recorder::default()).unwrap();
    assert!(events.is_empty());
    assert_eq!(state.started, 0);
}

#[test]
fn builder_min_parallelism() {
    // Passing 0 must not produce a pool without permits.
    let orch = builder().cache(()).max_parallelism(0).build();
    assert!(orch.is_ok(), "build should succeed with max_parallelism=0");
    assert_eq!(orch.map(|o| o.max_parallelism()), Ok(1));
}

#[test]
fn builder_requires_cache() {
    let result = builder().build();
    assert!(matches!(result, Err(BuilderError::MissingCache)));
    assert_eq!(
        BuilderError::MissingCache.to_string(),
        "orchestrator builder requires a cache"
    );
}

#[test]
fn builder_default_env_is_empty() {
    let orch = builder().cache(()).build().expect("build");
    assert!(orch.base_ctx().env.is_empty(), "default builder env must be empty");
    assert!(!orch.base_ctx().cancel.is_cancelled());
    assert!(orch.max_parallelism() >= 1);
}

#[test]
fn the_builder_keeps_what_it_is_given() {
    let ctx = Ctx {
        cancel: tokio_util::sync::CancellationToken::new(),
        workdir: "/elsewhere".to_string(),
        env: vec![("PATH".to_string(), "/bin".to_string())],
    };
    let b: Builder<TestAction, u8, u16> = Orchestrator::builder("/tmp".to_string());
    let orch = b
        .cache(7)
        .base_ctx(ctx)
        .shared_semaphore(9)
        .register(TestAction::new("a", &[], Behavior::FailImmediately))
        .register(TestAction::new("b", &[], Behavior::FailImmediately))
        .build()
        .expect("build");
    assert_eq!(*orch.cache(), 7);
    assert_eq!(*orch.pool(), Some(9));
    assert_eq!(orch.base_ctx().workdir, "/elsewhere");
    assert_eq!(orch.base_ctx().env.len(), 1);
    let (actions, cache) = orch.into_parts();
    assert_eq!(actions.len(), 2);
    assert_eq!(actions[1].id, aid("b"));
    assert_eq!(cache, 7);
}

#[test]
fn cancel_between_layers_aborts_pipeline() {
    let actions = [
        TestAction::new("A", &[], Behavior::SucceedAfter(10)),
        TestAction::new("B", &["A"], Behavior::SucceedAfter(10)),
    ];
    assert!(
        plan(&actions, false, Some(0)).is_err(),
        "planning should fail when the run is already cancelled"
    );
    // A run cancelled after planning starts nothing either.
    let p = plan(&actions, false, None).unwrap();
    let mut execution = Execution::new(&p, ExecMode::FailFast);
    assert_eq!(execution.next_layer(true), Next::Stopped);
    assert!(execution.running().is_none());
    match execution.finish() {
        Err(ExecError::LayerFailed { events }) => assert!(events.is_empty()),
        other => panic!("expected LayerFailed, got {other:?}"),
    }
}

#[test]
fn a_job_ends_once() {
    let actions = [TestAction::new("A", &[], Behavior::FailImmediately)];
    let p = plan(&actions, false, None).unwrap();
    let mut execution = Execution::new(&p, ExecMode::KeepGoing);
    assert!(execution.complete(0, 1, Err(BuildError::Cancelled)).is_none());
    assert_eq!(execution.next_layer(false), Next::Run { index: 1, total: 1 });
    assert!(execution.layer_events().is_none());
    let report = execution
        .complete(0, u128::MAX, Err(BuildError::Cancelled))
        .expect("the job was running");
    assert!(!report.cancel_peers, "keep going");
    assert!(matches!(report.event, BuildEvent::Failed { ms: u64::MAX, .. }));
    assert!(execution.complete(0, 1, Err(BuildError::Cancelled)).is_none());
    assert!(execution.complete(1, 1, Err(BuildError::Cancelled)).is_none());
    assert!(!execution.commit(), "a failure halts the run");
}

/// Records every callback in order.
#[derive(Default)]
struct Recorder(Mutex<Vec<String>>);

impl Recorder {
    fn log(&self) -> Vec<String> {
        self.0.lock().expect("not poisoned").clone()
    }
    fn push(&self, s: String) {
        self.0.lock().expect("not poisoned").push(s);
    }
}

impl ProgressSink for Recorder {
    fn on_layer_start(&self, index: usize, total: usize, ids: &[ActionId]) {
        self.push(format!("layer_start:{index}/{total}:{}", ids.len()));
    }
    fn on_action_start(&self, id: &ActionId) {
        self.push(format!("start:{}", id.0));
    }
    fn on_action_ok(&self, id: &ActionId, _ms: u64) {
        self.push(format!("ok:{}", id.0));
    }
    fn on_action_failed(&self, id: &ActionId, _err: &BuildError, _ms: u64) {
        self.push(format!("failed:{}", id.0));
    }
    fn on_action_cancelled(&self, id: &ActionId, _ms: u64) {
        self.push(format!("cancelled:{}", id.0));
    }
    fn on_layer_end(&self, index: usize) {
        self.push(format!("layer_end:{index}"));
    }
}

fn run_observed(
    actions: &[TestAction],
    mode: ExecMode,
    sink: &Recorder,
) -> Result<Vec<BuildEvent>, ExecError> {
    let p = plan(actions, false, None).expect("plan");
    run(actions, &p, mode, 4, &mut TestState::default(), sink)
}

#[test]
fn every_action_gets_exactly_one_start_and_one_terminal() {
    let actions = [
        TestAction::new("a", &[], Behavior::SucceedAfter(1)),
        TestAction::new("b", &["a"], Behavior::SucceedAfter(1)),
    ];
    let sink = Recorder::default();
    run_observed(&actions, ExecMode::FailFast, &sink).expect("succeeds");
    let log = sink.log();
    for id in ["a", "b"] {
        assert_eq!(
            log.iter().filter(|l| *l == &format!("start:{id}")).count(),
            1,
            "exactly one start for {id}: {log:?}"
        );
        assert_eq!(
            log.iter()
                .filter(|l| l.ends_with(&format!(":{id}")) && !l.starts_with("start:"))
                .count(),
            1,
            "exactly one terminal for {id}: {log:?}"
        );
    }
}

#[test]
fn start_precedes_its_own_terminal() {
    let actions = [TestAction::new("a", &[], Behavior::SucceedAfter(20))];
    let sink = Recorder::default();
    run_observed(&actions, ExecMode::FailFast, &sink).expect("succeeds");
    let log = sink.log();
    let start = log.iter().position(|l| l == "start:a").expect("start");
    let ok = log.iter().position(|l| l == "ok:a").expect("ok");
    assert!(start < ok, "start must precede the terminal: {log:?}");
}

#[test]
fn cancelled_peers_are_not_reported_as_failures() {
    let actions = [
        TestAction::new("boom", &[], Behavior::FailImmediately),
        TestAction::new("slow", &[], Behavior::SucceedAfter(30_000)),
    ];
    let sink = Recorder::default();
    let _ = run_observed(&actions, ExecMode::FailFast, &sink);
    let log = sink.log();
    assert!(log.contains(&"failed:boom".to_string()), "{log:?}");
    assert!(
        log.contains(&"cancelled:slow".to_string()),
        "the cancelled peer must be reported as cancelled, not failed: {log:?}"
    );
    assert!(
        !log.contains(&"failed:slow".to_string()),
        "a cancelled peer is not a failure: {log:?}"
    );
}

#[test]
fn layer_boundaries_are_paired_and_numbered_by_what_runs() {
    let actions = [
        TestAction::new("a", &[], Behavior::SucceedAfter(1)),
        TestAction::new("b", &["a"], Behavior::SucceedAfter(1)),
    ];
    let sink = Recorder::default();
    run_observed(&actions, ExecMode::FailFast, &sink).expect("succeeds");
    let log = sink.log();
    assert_eq!(
        log.iter().filter(|l| l.starts_with("layer_start:")).count(),
        log.iter().filter(|l| l.starts_with("layer_end:")).count(),
        "every layer that opens must close: {log:?}"
    );
    assert!(log.contains(&"layer_start:1/2:1".to_string()), "{log:?}");
    assert!(log.contains(&"layer_start:2/2:1".to_string()), "{log:?}");
}

#[test]
fn an_up_to_date_plan_emits_nothing() {
    let actions = [TestAction::new("a", &[], Behavior::SucceedAfter(1))];
    let p = plan(&actions, true, None).expect("plan");
    let sink = Recorder::default();
    run(&actions, &p, ExecMode::FailFast, 4, &mut TestState::default(), &sink).expect("no-op");
    assert!(sink.log().is_empty(), "{:?}", sink.log());
}
