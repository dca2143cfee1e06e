use repolith::cli_progress::{brief, CliProgress};
use repolith::types::{ActionId, BuildError, BuildEvent, Sha256};

fn aid(s: &str) -> ActionId {
    ActionId(s.to_string())
}

#[test]
fn a_terminal_clears_the_in_flight_entry() {
    let mut p = CliProgress::new();
    p.on_action_start(&aid("a"), 0);
    assert_eq!(p.snapshot(0).len(), 1);
    p.on_action_ok(&aid("a"), 1);
    assert!(p.snapshot(0).is_empty(), "a reported terminal must leave nothing behind");
}

/// The layer boundary reconciles whatever the terminals missed.
#[test]
fn on_layer_end_leaves_the_map_empty_even_with_a_vanished_action() {
    let mut p = CliProgress::new();
    p.on_action_start(&aid("gone"), 0);
    p.on_action_start(&aid("done"), 0);
    p.on_action_ok(&aid("done"), 1);
    // `gone` never reported a terminal: it vanished.
    let lines = p.on_layer_end();
    assert_eq!(lines, vec!["  ⚠ gone — vanished without reporting"]);
    assert!(
        p.snapshot(0).is_empty(),
        "the layer boundary must reconcile whatever the terminals missed"
    );
}

/// The heartbeat says nothing when nothing runs.
#[test]
fn a_tick_with_nothing_in_flight_is_silent() {
    let p = CliProgress::new();
    assert!(p.snapshot(0).is_empty());
    assert!(p.tick(0).is_empty());
}

#[test]
fn the_snapshot_is_ordered_oldest_first() {
    let mut p = CliProgress::new();
    p.on_action_start(&aid("older"), 0);
    p.on_action_start(&aid("newer"), 12);
    let snap = p.snapshot(20);
    assert_eq!(snap[0].id, aid("older"), "longest-running first");
    assert_eq!(snap[0].elapsed, 20);
    assert_eq!(snap[1].elapsed, 8);
    assert_eq!(
        p.tick(61_500),
        vec![
            "  … still running: older (1 min 1 s)",
            "  … still running: newer (1 min 1 s)",
        ]
    );
}

#[test]
fn a_restarted_action_is_as_young_as_its_last_start() {
    let mut p = CliProgress::new();
    p.on_action_start(&aid("a"), 0);
    p.on_action_start(&aid("b"), 5);
    p.on_action_start(&aid("a"), 9);
    let snap = p.snapshot(10);
    assert_eq!(snap.len(), 2);
    assert_eq!(snap[0].id, aid("b"));
    assert_eq!(snap[1].elapsed, 1);
}

#[test]
fn every_callback_has_its_line() {
    let mut p = CliProgress::default();
    assert_eq!(p.on_layer_start(1, 3, &[aid("a")]), "layer 1/3 — 1 action");
    assert_eq!(p.on_layer_start(2, 3, &[aid("a"), aid("b")]), "layer 2/3 — 2 actions");
    assert_eq!(p.on_action_start(&aid("a"), 1), "  → a");
    assert_eq!(p.on_action_ok(&aid("a"), 55), "OK   a (55 ms)");
    assert_eq!(
        p.on_action_failed(&aid("a"), &BuildError::Io("gone".to_string()), 4_200),
        "FAIL a (4.2 s) — IO error: gone"
    );
    assert_eq!(p.on_action_cancelled(&aid("a"), 7), "  ⊘ a   7 ms — cancelled");
}

#[test]
fn the_summary_counts_and_repeats_failures() {
    let p = CliProgress::new();
    assert!(p.summary(&[]).is_empty());
    let ok = BuildEvent::Success {
        id: aid("a"),
        input: Sha256([0; 32]),
        output: Sha256([0; 32]),
        ms: 1,
    };
    let failed = BuildEvent::Failed {
        id: aid("b"),
        input: Sha256([0; 32]),
        error: BuildError::CommandFailed { exit_code: 2, stderr: "first\nsecond".to_string() },
        ms: 1,
    };
    assert_eq!(
        p.summary(&[ok.clone(), failed, ok]),
        vec!["2 ok, 1 failed", "  ✗ b: Command failed: 2: first"]
    );
}

#[test]
fn a_brief_error_is_cut_after_seventy_two_characters() {
    let long = "x".repeat(100);
    let s = brief(&BuildError::Io(long));
    assert_eq!(s.chars().count(), 73);
    assert!(s.ends_with('…'));
    let fits = "y".repeat(72 - "IO error: ".len());
    assert_eq!(brief(&BuildError::Io(fits.clone())), format!("IO error: {fits}"));
}
