use repolith::cache::{Cache, CacheError, NamespacedCache};
use repolith::clock::now_ms;
use repolith::rows::{decode_row, encode_row, EventRow};
use repolith::types::{ActionId, BuildError, BuildEvent, BuildRecord, Sha256};
use std::cell::RefCell;
use std::collections::HashMap;
use std::rc::Rc;

/// A backend that implements only the required methods and tracks no dates.
#[derive(Default)]
struct MockCache {
    events: HashMap<ActionId, BuildEvent>,
}

impl MockCache {
    fn new() -> Self {
        Self::default()
    }
}

impl Cache for MockCache {
    fn last_build(&self, id: &ActionId) -> Option<BuildEvent> {
        self.events.get(id).cloned()
    }

    fn record(&mut self, event: BuildEvent) -> Result<(), CacheError> {
        self.events.insert(event.id().clone(), event);
        Ok(())
    }
}

/// A backend that keeps encoded rows, shared between its clones.
#[derive(Clone, Default)]
struct RowCache {
    rows: Rc<RefCell<HashMap<ActionId, EventRow>>>,
}

impl Cache for RowCache {
    fn last_build(&self, id: &ActionId) -> Option<BuildEvent> {
        self.last_record(id).map(|r| r.event)
    }

    fn last_record(&self, id: &ActionId) -> Option<BuildRecord> {
        let rows = self.rows.borrow();
        decode_row(id, rows.get(id)?)
    }

    fn record(&mut self, event: BuildEvent) -> Result<(), CacheError> {
        let row = encode_row(&event);
        self.rows.borrow_mut().insert(event.id().clone(), row);
        Ok(())
    }
}

fn success(id: &str, ms: u64) -> BuildEvent {
    BuildEvent::Success {
        id: ActionId(id.to_string()),
        input: Sha256([3; 32]),
        output: Sha256([4; 32]),
        ms,
    }
}

fn failed(id: &str) -> BuildEvent {
    BuildEvent::Failed {
        id: ActionId(id.to_string()),
        input: Sha256([5; 32]),
        error: BuildError::Io("disk full".to_string()),
        ms: 7,
    }
}

#[test]
fn test_mock_cache() {
    let mut cache = MockCache::new();
    let id = ActionId("test-action".to_string());
    assert!(cache.last_build(&id).is_none());
    let event = BuildEvent::Success {
        id: id.clone(),
        input: Sha256([0; 32]),
        output: Sha256([1; 32]),
        ms: 100,
    };
    cache.record(event.clone()).unwrap();
    match cache.last_build(&id).unwrap() {
        BuildEvent::Success { ms, .. } => assert_eq!(ms, 100),
        BuildEvent::Failed { .. } => panic!("Expected Success event"),
    }
}

#[test]
fn test_cache_error_display() {
    let err1 = CacheError::Io("file missing".to_string());
    assert_eq!(err1.to_string(), "io: file missing");

    let err2 = CacheError::Backend("db locked".to_string());
    assert_eq!(err2.to_string(), "backend: db locked");
}

#[test]
fn test_cache_is_object_safe() {
    // This line will fail to compile if `Cache` is not object-safe.
    let _cache: Box<dyn Cache> = Box::new(MockCache::new());
}

/// The contract every backend must satisfy.
fn run_contract_suite(cache: &mut dyn Cache, ns: &str) {
    let id = |s: &str| ActionId(format!("{ns}::{s}"));

    assert!(cache.last_build(&id("absent")).is_none(), "unknown id must return None");

    cache.record(success(&id("ok").0, 42)).expect("record success");
    match cache.last_build(&id("ok")).expect("event stored") {
        BuildEvent::Success { input, output, ms, .. } => {
            assert_eq!(input, Sha256([3; 32]));
            assert_eq!(output, Sha256([4; 32]));
            assert_eq!(ms, 42);
        }
        BuildEvent::Failed { .. } => panic!("expected Success"),
    }

    cache.record(failed(&id("ko").0)).expect("record failed");
    match cache.last_build(&id("ko")).expect("event stored") {
        BuildEvent::Failed { error, .. } => {
            assert!(
                matches!(&error, BuildError::Io(m) if m == "disk full"),
                "typed error must roundtrip, got: {error:?}"
            );
        }
        BuildEvent::Success { .. } => panic!("expected Failed"),
    }

    cache.record(success(&id("ok").0, 99)).expect("overwrite");
    match cache.last_build(&id("ok")).expect("event stored") {
        BuildEvent::Success { ms, .. } => assert_eq!(ms, 99, "latest event wins"),
        BuildEvent::Failed { .. } => panic!("expected Success"),
    }

    cache.record(failed(&id("ok").0)).expect("flip to failed");
    assert!(
        matches!(cache.last_build(&id("ok")), Some(BuildEvent::Failed { .. })),
        "status flip must be visible"
    );

    let batch: Vec<BuildEvent> =
        (0..5).map(|i| success(&id(&format!("b{i}")).0, i)).collect();
    cache.record_batch(batch).expect("record_batch");
    for i in 0..5u64 {
        match cache.last_build(&id(&format!("b{i}"))) {
            Some(BuildEvent::Success { ms, .. }) => assert_eq!(ms, i),
            other => panic!("batch event b{i} missing or wrong: {other:?}"),
        }
    }

    cache.record_batch(vec![]).expect("empty batch ok");

    let before = now_ms();
    cache.record(success(&id("dated").0, 5)).expect("record dated");
    let rec = cache.last_record(&id("dated")).expect("record must be readable");
    let at = rec.recorded_at.expect("a backend that just wrote an event must be able to date it");
    assert!(at.abs_diff(before) < 60_000, "recorded_at {at} is not a plausible now ({before})");

    let via_build = cache.last_build(&id("dated")).expect("event must be readable");
    match (&rec.event, &via_build) {
        (
            BuildEvent::Success { ms: a, input: ia, .. },
            BuildEvent::Success { ms: b, input: ib, .. },
        ) => {
            assert_eq!(a, b, "duration must not differ between the two read paths");
            assert_eq!(*a, 5, "dating an event must not disturb its duration");
            assert_eq!(ia, ib, "input hash must not differ between read paths");
        }
        other => panic!("both read paths must yield the same Success: {other:?}"),
    }
}

#[test]
fn rows_satisfy_the_contract() {
    let mut cache = RowCache::default();
    run_contract_suite(&mut cache, "run");
}

#[test]
fn a_namespace_passes_events_on_without_their_dates() {
    let mut cache = NamespacedCache::new(RowCache::default(), "stack::");
    let id = ActionId("a::b::0".to_string());
    cache.record_batch(vec![success(&id.0, 1), failed("c")]).unwrap();
    let rec = cache.last_record(&id).expect("readable");
    assert!(rec.recorded_at.is_none());
    assert_eq!(rec.event.id(), &id);
    assert!(matches!(
        cache.last_build(&ActionId("c".to_string())),
        Some(BuildEvent::Failed { .. })
    ));
}

#[test]
fn undated_backend_reports_absence_not_zero() {
    let mut cache = MockCache::default();
    let id = ActionId("a::b::0".to_string());
    cache
        .record(BuildEvent::Success {
            id: id.clone(),
            input: Sha256([1; 32]),
            output: Sha256([2; 32]),
            ms: 11,
        })
        .expect("record");
    let rec = cache.last_record(&id).expect("event is readable");
    assert!(rec.recorded_at.is_none(), "no write time must read as None, never as zero");
    assert!(
        matches!(rec.event, BuildEvent::Success { ms: 11, .. }),
        "the default must pass the event through untouched"
    );
}

#[test]
fn namespaces_are_disjoint_on_a_shared_backend() {
    let shared = RowCache::default();
    let mut a = NamespacedCache::new(shared.clone(), "stack-a::");
    let mut b = NamespacedCache::new(shared, "stack-b::");
    let id = ActionId("api::git-clone::0".to_string());

    a.record(success(&id.0, 5)).unwrap();
    assert!(a.last_build(&id).is_some(), "a sees its own event");
    assert!(b.last_build(&id).is_none(), "b must not see a's event");

    b.record(success(&id.0, 5)).unwrap();
    assert!(b.last_build(&id).is_some());
}

#[test]
fn ids_roundtrip_unprefixed() {
    let mut c = NamespacedCache::new(RowCache::default(), "ns::");
    let id = ActionId("node::kind::0".to_string());
    c.record(success(&id.0, 5)).unwrap();
    match c.last_build(&id).unwrap() {
        BuildEvent::Success { id: got, .. } => assert_eq!(got, id, "prefix must be stripped"),
        BuildEvent::Failed { .. } => panic!("expected Success"),
    }
    assert_eq!(c.prefixed(&id), ActionId("ns::node::kind::0".to_string()));
}

#[test]
fn record_then_last_build() {
    let mut cache = RowCache::default();
    let id = ActionId("test".to_string());
    let input = Sha256([1; 32]);
    let output = Sha256([2; 32]);
    cache.record(BuildEvent::Success { id: id.clone(), input, output, ms: 42 }).unwrap();
    match cache.last_build(&id).expect("event must be present") {
        BuildEvent::Success { id: got_id, input: got_input, output: got_output, ms } => {
            assert_eq!(got_id, id);
            assert_eq!(got_input, input);
            assert_eq!(got_output, output);
            assert_eq!(ms, 42);
        }
        BuildEvent::Failed { .. } => panic!("expected Success, got Failed"),
    }
}

#[test]
fn missing_returns_none() {
    let cache = RowCache::default();
    assert!(cache.last_build(&ActionId("absent".to_string())).is_none());
}

#[test]
fn replaces_on_second_record() {
    let mut cache = RowCache::default();
    let id = ActionId("dup".to_string());
    let first = BuildEvent::Success {
        id: id.clone(),
        input: Sha256([0; 32]),
        output: Sha256([0xaa; 32]),
        ms: 10,
    };
    let second = BuildEvent::Success {
        id: id.clone(),
        input: Sha256([1; 32]),
        output: Sha256([0xbb; 32]),
        ms: 20,
    };
    cache.record(first).unwrap();
    cache.record(second).unwrap();
    match cache.last_build(&id).expect("present") {
        BuildEvent::Success { output, ms, .. } => {
            assert_eq!(output, Sha256([0xbb; 32]), "second record must win");
            assert_eq!(ms, 20);
        }
        BuildEvent::Failed { .. } => panic!("expected Success, got Failed"),
    }
}

#[test]
fn failed_event_roundtrip() {
    let mut cache = RowCache::default();
    let id = ActionId("flaky".to_string());
    let original_error =
        BuildError::CommandFailed { exit_code: 7, stderr: "boom".to_string() };
    cache
        .record(BuildEvent::Failed {
            id: id.clone(),
            input: Sha256([3; 32]),
            error: original_error.clone(),
            ms: 99,
        })
        .unwrap();
    match cache.last_build(&id).expect("failed event present") {
        BuildEvent::Failed { error, ms, input, .. } => {
            assert_eq!(input, Sha256([3; 32]));
            assert_eq!(ms, 99);
            if let BuildError::CommandFailed { exit_code, stderr } = error {
                assert_eq!(exit_code, 7);
                assert_eq!(stderr, "boom");
            } else {
                panic!("expected CommandFailed variant after roundtrip");
            }
        }
        BuildEvent::Success { .. } => panic!("expected Failed, got Success"),
    }
}

#[test]
fn record_batch_persists_all_events() {
    let mut cache = RowCache::default();
    let events = vec![
        BuildEvent::Success {
            id: ActionId("a".into()),
            input: Sha256([1; 32]),
            output: Sha256([2; 32]),
            ms: 10,
        },
        BuildEvent::Success {
            id: ActionId("b".into()),
            input: Sha256([3; 32]),
            output: Sha256([4; 32]),
            ms: 20,
        },
        BuildEvent::Failed {
            id: ActionId("c".into()),
            input: Sha256([5; 32]),
            error: BuildError::Cancelled,
            ms: 30,
        },
    ];
    cache.record_batch(events).unwrap();
    assert!(matches!(
        cache.last_build(&ActionId("a".into())),
        Some(BuildEvent::Success { ms: 10, .. })
    ));
    assert!(matches!(
        cache.last_build(&ActionId("b".into())),
        Some(BuildEvent::Success { ms: 20, .. })
    ));
    assert!(matches!(
        cache.last_build(&ActionId("c".into())),
        Some(BuildEvent::Failed { ms: 30, .. })
    ));
}

#[test]
fn record_batch_empty_is_noop() {
    let mut cache = RowCache::default();
    cache.record_batch(vec![]).unwrap();
    assert!(
        cache.last_build(&ActionId("anything".into())).is_none(),
        "empty batch must not change cache state"
    );
}

#[test]
fn two_batches_are_one() {
    let mut twice = MockCache::new();
    twice.record_batch(vec![success("a", 1), success("b", 2)]).unwrap();
    twice.record_batch(vec![failed("a")]).unwrap();
    let mut once = MockCache::new();
    once.record_batch(vec![success("a", 1), success("b", 2), failed("a")]).unwrap();
    for id in ["a", "b"] {
        let id = ActionId(id.to_string());
        assert_eq!(format!("{:?}", twice.last_build(&id)), format!("{:?}", once.last_build(&id)));
        assert_eq!(twice.last_build(&id).unwrap().is_failure(), id.0 == "a");
    }
}

/// A backend that refuses events about one action.
#[derive(Default)]
struct PickyCache {
    inner: MockCache,
    refused: String,
}

impl Cache for PickyCache {
    fn last_build(&self, id: &ActionId) -> Option<BuildEvent> {
        self.inner.last_build(id)
    }

    fn record(&mut self, event: BuildEvent) -> Result<(), CacheError> {
        if event.id().0 == self.refused {
            return Err(CacheError::Backend(format!("refused {}", self.refused)));
        }
        self.inner.record(event)
    }
}

fn picky(refused: &str) -> PickyCache {
    PickyCache { inner: MockCache::new(), refused: refused.to_string() }
}

#[test]
fn the_first_refused_event_ends_a_batch() {
    let mut cache = picky("b");
    let err = cache
        .record_batch(vec![success("a", 1), success("b", 2), success("c", 3)])
        .unwrap_err();
    assert_eq!(err, CacheError::Backend("refused b".to_string()));
    assert!(cache.last_build(&ActionId("a".to_string())).is_some());
    assert!(cache.last_build(&ActionId("b".to_string())).is_none());
    assert!(cache.last_build(&ActionId("c".to_string())).is_none());
}

#[test]
fn a_namespace_passes_on_what_the_backend_answers() {
    let mut cache = NamespacedCache::new(picky("ns::b"), "ns::");
    assert_eq!(cache.record(success("a", 1)), Ok(()));
    let refused = Err(CacheError::Backend("refused ns::b".to_string()));
    assert_eq!(cache.record(success("b", 2)), refused);
    assert_eq!(cache.record_batch(vec![success("c", 3), success("b", 2)]), refused);
    assert_eq!(cache.record_batch(vec![]), Ok(()));
    assert!(cache.last_build(&ActionId("c".to_string())).is_some());
}
