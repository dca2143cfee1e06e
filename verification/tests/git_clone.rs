use repolith::command::CmdOutput;
use repolith::git_clone::{hash_url_and_sha, GitClone};
use repolith::types::{ActionId, BuildError};

fn ok(stdout: &str) -> CmdOutput {
    CmdOutput { success: true, code: Some(0), stdout: stdout.as_bytes().to_vec(), stderr: vec![] }
}

fn failed(code: Option<i32>, stderr: &str) -> CmdOutput {
    CmdOutput { success: false, code, stdout: vec![], stderr: stderr.as_bytes().to_vec() }
}

fn action(url: &str) -> GitClone {
    GitClone {
        id: ActionId("git-a".into()),
        repo_url: url.to_string(),
        path: "/tmp/never-clone-me".to_string(),
        deps: vec![],
    }
}

#[test]
fn input_hash_is_stable_and_url_dependent() {
    let url = "file:///srv/bare.git";
    let remote = ok("2fd4e1c67a2d28fced849ee1bb76e7391b93eb12\tHEAD\n");
    let h1 = action(url).input_hash(&remote).unwrap();
    let h2 = action(url).input_hash(&remote).unwrap();
    assert_eq!(h1, h2, "input_hash must be deterministic");
    assert_eq!(h1, hash_url_and_sha(url, "2fd4e1c67a2d28fced849ee1bb76e7391b93eb12"));
    let other = action("file:///srv/bare.git-fake").input_hash(&remote).unwrap();
    assert_ne!(h1, other, "different mirrors of one commit differ");
}

#[test]
fn a_new_commit_changes_the_input_hash() {
    let a = action("file:///srv/bare.git");
    assert_ne!(
        a.input_hash(&ok("2fd4e1c67a2d28fced849ee1bb76e7391b93eb12\tHEAD\n")).unwrap(),
        a.input_hash(&ok("da39a3ee5e6b4b0d3255bfef95601890afd80709\tHEAD\n")).unwrap()
    );
}

#[test]
fn unreachable_url_yields_upstream_unreachable() {
    let url = "file:///definitely/does/not/exist/repo.git";
    match action(url).input_hash(&failed(Some(128), "fatal: no such repo\n")) {
        Err(BuildError::UpstreamUnreachable(m)) => assert_eq!(
            m,
            "git ls-remote file:///definitely/does/not/exist/repo.git: fatal: no such repo"
        ),
        other => panic!("expected UpstreamUnreachable, got {other:?}"),
    }
}

/// An empty answer would otherwise hash to the same value forever.
#[test]
fn a_remote_without_a_head_is_unreachable() {
    match action("file:///empty").input_hash(&ok("\n")) {
        Err(BuildError::UpstreamUnreachable(m)) => assert_eq!(m, "no HEAD"),
        other => panic!("expected UpstreamUnreachable, got {other:?}"),
    }
}

#[test]
fn first_execute_clones() {
    let a = action("file:///srv/bare.git");
    assert_eq!(
        a.update_args(false),
        vec![vec!["clone", "--quiet", "--", "file:///srv/bare.git", "/tmp/never-clone-me"]]
    );
    let out = a.output(&ok("abc123\n")).unwrap();
    assert_eq!(out.stdout, "HEAD abc123");
}

#[test]
fn second_execute_updates() {
    let a = action("file:///srv/bare.git");
    assert_eq!(
        a.update_args(true),
        vec![
            vec!["-C", "/tmp/never-clone-me", "fetch", "origin", "--quiet"],
            vec!["-C", "/tmp/never-clone-me", "reset", "--hard", "FETCH_HEAD", "--quiet"],
        ]
    );
    let first = a.output(&ok("abc123\n")).unwrap();
    let second = a.output(&ok("def456\n")).unwrap();
    assert!(second.stdout.contains("def456"));
    assert_ne!(first.output_hash, second.output_hash);
}

#[test]
fn a_failed_command_keeps_its_exit_code_and_its_words() {
    let a = action("file:///srv/bare.git");
    match a.output(&failed(Some(3), "  boom \n")) {
        Err(BuildError::CommandFailed { exit_code, stderr }) => {
            assert_eq!(exit_code, 3);
            assert_eq!(stderr, "boom");
        }
        other => panic!("expected CommandFailed, got {other:?}"),
    }
    match a.output(&failed(None, "")) {
        Err(BuildError::CommandFailed { exit_code, .. }) => assert_eq!(exit_code, -1),
        other => panic!("expected CommandFailed, got {other:?}"),
    }
}

#[test]
fn the_url_never_stands_where_a_flag_could() {
    let a = action("x");
    assert_eq!(a.ls_remote_args(), vec!["ls-remote", "--", "x", "HEAD"]);
    assert_eq!(a.head_args(), vec!["-C", "/tmp/never-clone-me", "rev-parse", "HEAD"]);
}

/// Bytes that are no UTF-8 are replaced, not lost.
#[test]
fn output_in_another_encoding_is_still_read() {
    let a = action("x");
    let out = CmdOutput {
        success: true,
        code: Some(0),
        stdout: vec![b'a', 0xff, b'b', b'\n'],
        stderr: vec![],
    };
    assert_eq!(a.output(&out).unwrap().stdout, "HEAD a\u{fffd}b");
}
