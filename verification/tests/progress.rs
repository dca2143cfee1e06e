use repolith::progress::{NoopSink, ProgressSink};
use repolith::types::{ActionId, BuildError};
use std::sync::Mutex;

/// Records the sequence of callbacks, so tests can assert on ordering rather
/// than on counts alone.
#[derive(Default)]
struct Recorder(Mutex<Vec<String>>);

impl ProgressSink for Recorder {
    fn on_action_start(&self, id: &ActionId) {
        self.0.lock().expect("not poisoned").push(format!("start:{}", id.0));
    }
    fn on_action_ok(&self, id: &ActionId, _ms: u64) {
        self.0.lock().expect("not poisoned").push(format!("ok:{}", id.0));
    }
    fn on_layer_end(&self, index: usize) {
        self.0.lock().expect("not poisoned").push(format!("layer_end:{index}"));
    }
}

fn aid(s: &str) -> ActionId {
    ActionId(s.to_string())
}

/// A sink implements only what it renders; the rest must be silently inert.
#[test]
fn unimplemented_methods_are_inert() {
    let r = Recorder::default();
    r.on_layer_start(1, 2, &[aid("a")]);
    r.on_action_cancelled(&aid("a"), 5);
    r.on_action_failed(&aid("a"), &BuildError::Cancelled, 5);
    assert!(r.0.lock().expect("not poisoned").is_empty(), "defaults must do nothing at all");
}

#[test]
fn implemented_methods_record_in_order() {
    let r = Recorder::default();
    r.on_action_start(&aid("a"));
    r.on_action_ok(&aid("a"), 42);
    r.on_layer_end(1);
    assert_eq!(*r.0.lock().expect("not poisoned"), vec!["start:a", "ok:a", "layer_end:1"]);
}

/// Silence is the default for every caller that supplies no sink.
#[test]
fn noop_sink_is_usable_as_a_trait_object_and_does_nothing() {
    let sink: &dyn ProgressSink = &NoopSink;
    sink.on_layer_start(1, 1, &[aid("a")]);
    sink.on_action_start(&aid("a"));
    sink.on_action_ok(&aid("a"), 1);
    sink.on_action_failed(&aid("a"), &BuildError::Cancelled, 1);
    sink.on_action_cancelled(&aid("a"), 1);
    sink.on_layer_end(1);
}
