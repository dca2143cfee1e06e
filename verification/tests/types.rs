use repolith::orchestrator::Ctx;
use repolith::types::{ActionId, BuildError, BuildEvent, BuildOutput, Sha256};
use tokio_util::sync::CancellationToken;

#[test]
fn test_action_id_display() {
    let id = ActionId("test-action".to_string());
    assert_eq!(id.to_string(), "test-action");
}

#[test]
fn test_sha256_display() {
    let hash = Sha256([0xab; 32]);
    let expected = "ab".repeat(32);
    assert_eq!(hash.to_string(), expected);
}

#[test]
fn test_build_error_display() {
    let err1 = BuildError::UpstreamUnreachable("dep-1".to_string());
    assert_eq!(err1.to_string(), "upstream unreachable: dep-1");

    let err2 = BuildError::CommandFailed { exit_code: 1, stderr: "boom".to_string() };
    assert_eq!(err2.to_string(), "Command failed: 1: boom");

    let err3 = BuildError::Io("file not found".to_string());
    assert_eq!(err3.to_string(), "IO error: file not found");

    let err4 = BuildError::Cancelled;
    assert_eq!(err4.to_string(), "Build cancelled");
}

#[test]
fn negative_exit_codes_are_rendered() {
    let err = BuildError::CommandFailed { exit_code: i32::MIN, stderr: String::new() };
    assert_eq!(err.to_string(), "Command failed: -2147483648: ");
}

#[test]
fn test_ctx_creation() {
    let cancel = CancellationToken::new();
    let ctx = Ctx { cancel: cancel.clone(), workdir: "/tmp".to_string(), env: Vec::new() };
    assert_eq!(ctx.workdir, "/tmp");
    assert!(!ctx.cancel.is_cancelled());
    cancel.cancel();
    assert!(ctx.cancel.is_cancelled());
}

#[test]
fn the_short_form_of_a_hash_has_eight_digits() {
    let mut bytes = [0u8; 32];
    bytes[0] = 0xde;
    bytes[1] = 0xad;
    bytes[3] = 0x0f;
    assert_eq!(Sha256(bytes).short(), "dead000f");
    assert!(Sha256([1; 32]).same(&Sha256([1; 32])));
    assert!(!Sha256([1; 32]).same(&Sha256([2; 32])));
}

#[test]
fn events_know_their_action() {
    let ok = BuildEvent::Success {
        id: ActionId("a".to_string()),
        input: Sha256([0; 32]),
        output: Sha256([0; 32]),
        ms: 1,
    };
    let failed = BuildEvent::Failed {
        id: ActionId("b".to_string()),
        input: Sha256([0; 32]),
        error: BuildError::Cancelled,
        ms: 2,
    };
    assert_eq!(ok.id(), &ActionId("a".to_string()));
    assert_eq!(failed.id(), &ActionId("b".to_string()));
    assert!(!ok.is_failure());
    assert!(failed.clone().is_failure());
    let out = BuildOutput { output_hash: Sha256([3; 32]), stdout: "done".to_string() };
    assert_eq!(out.clone().stdout, "done");
}
