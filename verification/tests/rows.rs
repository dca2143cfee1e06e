use repolith::rows::{decode_row, encode_row, encode_row_at, stamps, stamps_at};
use repolith::types::{ActionId, BuildEvent, Sha256};

fn ok_event(id: &str, ms: u64) -> BuildEvent {
    BuildEvent::Success {
        id: ActionId(id.to_string()),
        input: Sha256([3; 32]),
        output: Sha256([4; 32]),
        ms,
    }
}

#[test]
fn stamps_preserve_the_subtraction_invariant() {
    for ms in [0u64, 1, 1234, 86_400_000] {
        let (started, ended) = stamps(ms);
        assert_eq!(u64::try_from(ended - started).expect("non-negative"), ms);
    }
}

#[test]
fn an_undatable_build_falls_back_to_the_legacy_shape() {
    let (started, ended) = stamps(u64::MAX);
    assert_eq!(started, 0, "0 is the 'no write time' marker");
    assert_eq!(ended - started, i64::MAX, "duration still recoverable");
}

#[test]
fn stamps_anchor_on_the_clock() {
    assert_eq!(stamps_at(1_000, Some(1_700_000_000_000)), (1_699_999_999_000, 1_700_000_000_000));
    assert_eq!(stamps_at(1_000, None), (0, 1_000));
    assert_eq!(stamps_at(1_000, Some(999)), (0, 1_000));
}

/// A cache written before rows were dated keeps working and surfaces no date.
#[test]
fn legacy_row_keeps_its_duration_and_reports_no_date() {
    let id = ActionId("old::cargo-install::0".to_string());
    let mut row = encode_row(&ok_event(&id.0, 1234));
    row.started_at = 0;
    row.ended_at = 1234;
    let rec = decode_row(&id, &row).expect("an undated row must stay readable");
    assert!(rec.recorded_at.is_none());
    match rec.event {
        BuildEvent::Success { ms, .. } => assert_eq!(ms, 1234),
        BuildEvent::Failed { .. } => panic!("expected Success"),
    }
}

#[test]
fn new_rows_are_dated_without_disturbing_the_duration() {
    let id = ActionId("new::cargo-install::0".to_string());
    let row = encode_row(&ok_event(&id.0, 1234));
    let rec = decode_row(&id, &row).expect("readable");
    match rec.event {
        BuildEvent::Success { ms, .. } => assert_eq!(ms, 1234, "duration must be untouched"),
        BuildEvent::Failed { .. } => panic!("expected Success"),
    }
    assert!(rec.recorded_at.is_some(), "a freshly written row must be dated");
    assert_eq!(row.ended_at - row.started_at, 1234, "duration recoverable by subtraction");
    assert!(row.started_at > 1_600_000_000_000, "a real epoch reading");
}

#[test]
fn rows_round_trip() {
    let id = ActionId("a".to_string());
    let row = encode_row_at(&ok_event("a", 7), Some(1_700_000_000_000));
    assert_eq!(row.input_hash, "03".repeat(32));
    let rec = decode_row(&id, &row).expect("readable");
    assert_eq!(rec.recorded_at, Some(1_700_000_000_000));
    match rec.event {
        BuildEvent::Success { id: got, input, output, ms } => {
            assert_eq!(got, id);
            assert_eq!(input, Sha256([3; 32]));
            assert_eq!(output, Sha256([4; 32]));
            assert_eq!(ms, 7);
        }
        BuildEvent::Failed { .. } => panic!("expected Success"),
    }
}

#[test]
fn a_malformed_hash_makes_a_row_unreadable() {
    let id = ActionId("a".to_string());
    let mut row = encode_row_at(&ok_event("a", 7), None);
    row.input_hash = "zz".to_string();
    assert!(decode_row(&id, &row).is_none());
}
