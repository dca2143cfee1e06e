//! The action lifecycle, as it happens.
//!
//! A sink observes layer boundaries and the start and end of every action. An
//! action that starts reaches exactly one of the three terminal callbacks,
//! unless it vanishes because a panic unwinds its layer; the end of the layer
//! is announced even then, so that a sink can reconcile its own bookkeeping.

use crate::types::{ActionId, BuildError};
use vstd::prelude::*;

verus! {

/// Observer of the action lifecycle during plan execution.
///
/// Every method does nothing by default. Implementations must neither block
/// nor panic: they run on the task that drives the actions.
pub trait ProgressSink {
    /// A layer is about to run: the `index`-th of `total`, with the actions
    /// that will actually run.
    fn on_layer_start(&self, index: usize, total: usize, ids: &[ActionId]) {
    }

    /// An action is about to be awaited.
    fn on_action_start(&self, id: &ActionId) {
    }

    /// An action succeeded, taking `ms` milliseconds.
    fn on_action_ok(&self, id: &ActionId, ms: u64) {
    }

    /// An action failed on its own merits, after `ms` milliseconds.
    fn on_action_failed(&self, id: &ActionId, err: &BuildError, ms: u64) {
    }

    /// An action was cancelled: it did not fail, it was stopped.
    fn on_action_cancelled(&self, id: &ActionId, ms: u64) {
    }

    /// The layer is over: whatever is still marked in flight never reported a
    /// terminal.
    fn on_layer_end(&self, index: usize) {
    }
}

/// The sink used when a caller does not supply one: it does nothing.
#[derive(Debug, Default, Clone, Copy)]
pub struct NoopSink;

impl ProgressSink for NoopSink {

}

} // verus!
