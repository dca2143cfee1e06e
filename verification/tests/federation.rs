use repolith::command::CmdOutput;
use repolith::federation::{child_failure, ChildStep, RepolithSync, MAX_FEDERATION_DEPTH};
use repolith::types::{ActionId, BuildError, BuildEvent, ExecMode, Sha256};

const DIR: &str = "/stacks/child";
const MANIFEST: &str = "/stacks/child/repolith.toml";

fn sync_action(chain: Vec<String>) -> RepolithSync {
    RepolithSync {
        id: ActionId("stack::repolith::0".into()),
        node_path: DIR.to_string(),
        manifest_rel: None,
        chain,
        mode: ExecMode::FailFast,
        deps: vec![],
    }
}

fn resolve(a: &RepolithSync) -> Result<String, BuildError> {
    a.resolved_manifest(&Ok(DIR.to_string()), &Ok(MANIFEST.to_string()))
}

fn head() -> CmdOutput {
    CmdOutput { success: true, code: Some(0), stdout: b"abc\n".to_vec(), stderr: vec![] }
}

fn success(id: &str, byte: u8) -> BuildEvent {
    BuildEvent::Success {
        id: ActionId(id.to_string()),
        input: Sha256([0; 32]),
        output: Sha256([byte; 32]),
        ms: 1,
    }
}

#[test]
fn nested_stack_executes_child_actions() {
    let a = sync_action(vec![]);
    let manifest = resolve(&a).expect("manifest resolves");
    let dir = a.stack_dir(&manifest).expect("has a parent");
    assert_eq!(dir, DIR);
    assert_eq!(a.child_chain(&manifest), vec![MANIFEST]);
    let out = a.output(&dir, &vec![success("child::work::0", 8)]);
    assert!(out.stdout.contains("1 action(s)"), "stdout: {}", out.stdout);
    assert_eq!(out.stdout, "child stack /stacks/child synced — 1 action(s)");
}

#[test]
fn cycle_is_rejected_with_chain() {
    let err = resolve(&sync_action(vec![MANIFEST.to_string()])).unwrap_err();
    assert!(err.to_string().contains("federation cycle"), "got: {}", err.to_string());

    let chain = vec!["/root.toml".to_string(), MANIFEST.to_string(), "/x.toml".to_string()];
    let err = resolve(&sync_action(chain)).unwrap_err();
    assert_eq!(
        err.to_string(),
        "IO error: federation cycle: \
         /stacks/child/repolith.toml -> /x.toml -> /stacks/child/repolith.toml"
    );
}

#[test]
fn depth_bound_is_enforced() {
    let chain: Vec<String> =
        (0..MAX_FEDERATION_DEPTH).map(|i| format!("/ancestor/{i}/repolith.toml")).collect();
    let err = resolve(&sync_action(chain.clone())).unwrap_err();
    assert!(err.to_string().contains("federation depth"), "got: {}", err.to_string());
    assert!(
        err.to_string().contains(
            "federation depth 9 exceeds the maximum of 8 (chain: /ancestor/0/repolith.toml -> "
        ),
        "got: {}",
        err.to_string()
    );
    assert!(resolve(&sync_action(chain[1..].to_vec())).is_ok(), "one level less fits");
}

#[test]
fn input_hash_pre_clone_is_deterministic_marker() {
    let a = sync_action(vec![]);
    let missing = || {
        a.resolved_manifest(&Err("No such file".to_string()), &Err("No such file".to_string()))
    };
    let none: Result<Vec<u8>, String> = Err(String::new());
    let h1 = a.input_hash(&missing(), false, &none, &head()).expect("marker hash");
    let h2 = a.input_hash(&missing(), false, &none, &head()).expect("marker hash again");
    assert_eq!(h1, h2, "pre-clone marker must be deterministic");
    assert!(
        a.input_hash(&missing(), true, &none, &head()).is_err(),
        "a checkout without its manifest is an error"
    );
}

#[test]
fn the_manifest_and_the_checkout_are_inputs() {
    let a = sync_action(vec![]);
    let h = |content: &str, head: &CmdOutput| {
        a.input_hash(&resolve(&a), true, &Ok(content.as_bytes().to_vec()), head).unwrap()
    };
    let mut no_git = head();
    no_git.success = false;
    assert_eq!(h("a", &head()), h("a", &head()));
    assert_ne!(h("a", &head()), h("b", &head()));
    assert_ne!(h("a", &head()), h("a", &no_git));
    match a.input_hash(&resolve(&a), true, &Err("gone".to_string()), &head()) {
        Err(BuildError::Io(m)) => {
            assert_eq!(m, "read manifest /stacks/child/repolith.toml: gone");
        }
        other => panic!("expected Io, got {other:?}"),
    }
}

#[test]
fn equal_results_give_equal_output_in_any_order() {
    let a = sync_action(vec![]);
    let failed = BuildEvent::Failed {
        id: ActionId("z".to_string()),
        input: Sha256([0; 32]),
        error: BuildError::Cancelled,
        ms: 1,
    };
    let one = a.output(DIR, &vec![success("a", 1), success("b", 2), failed]);
    let two = a.output(DIR, &vec![success("b", 2), success("a", 1)]);
    assert_eq!(one.output_hash, two.output_hash);
    assert_eq!(one.stdout, "child stack /stacks/child synced — 2 action(s)");
    let three = a.output(DIR, &vec![success("b", 1), success("a", 2)]);
    assert_ne!(one.output_hash, three.output_hash);
}

#[test]
fn an_explicit_manifest_is_taken_from_the_checkout() {
    let mut a = sync_action(vec![]);
    assert_eq!(a.manifest_path(), "repolith.toml");
    a.manifest_rel = Some("sub/stack.toml".to_string());
    assert_eq!(a.manifest_path(), "sub/stack.toml");
    let err = a
        .resolved_manifest(&Ok(DIR.to_string()), &Ok("/elsewhere/stack.toml".to_string()))
        .unwrap_err();
    assert!(err.to_string().contains("escapes"), "{}", err.to_string());
    assert_eq!(a.head_args(), vec!["-C", DIR, "rev-parse", "HEAD"]);
    match a.stack_dir("/") {
        Err(BuildError::Io(m)) => assert_eq!(m, "manifest / has no parent"),
        other => panic!("expected Io, got {other:?}"),
    }
}

#[test]
fn child_failures_name_the_step() {
    let text = |step| match child_failure(step, "/m", "why") {
        BuildError::Io(m) => m,
        other => panic!("expected Io, got {other:?}"),
    };
    assert_eq!(text(ChildStep::Read), "read manifest /m: why");
    assert_eq!(text(ChildStep::Parse), "child manifest /m: why");
    assert_eq!(text(ChildStep::Setup), "child orchestrator: why");
    assert_eq!(text(ChildStep::Plan), "child plan (/m): why");
    assert_eq!(text(ChildStep::Sync), "child sync (/m): why");
}
