use repolith::digest::{parse_sha256, to_hex, Hasher};
use repolith::source_hash::{
    is_excluded, platform_tag, tree_digest, unwalkable_entry, TreeFile, WalkFailure,
};
use repolith::types::Sha256;

fn file(rel: &str, content: &[u8]) -> TreeFile {
    TreeFile { rel: rel.to_string(), content: Ok(content.to_vec()) }
}

fn digest(files: Vec<TreeFile>) -> Sha256 {
    tree_digest("/t", &Ok(files)).expect("digest")
}

#[test]
fn missing_tree_is_an_error() {
    let err = tree_digest("/nonexistent/repolith/tree", &Err(WalkFailure::Missing)).unwrap_err();
    assert_eq!(
        err.to_string(),
        "IO error: source tree /nonexistent/repolith/tree does not exist"
    );
    let err = tree_digest("/t", &Err(WalkFailure::Walk("loop".to_string()))).unwrap_err();
    assert_eq!(err.to_string(), "IO error: walk /t: loop");
}

#[test]
fn same_content_same_digest() {
    let a = vec![file("src/main.rs", b"fn main() {}"), file("Cargo.toml", b"[package]")];
    let b = vec![file("Cargo.toml", b"[package]"), file("src/main.rs", b"fn main() {}")];
    assert_eq!(digest(a), digest(b), "content-only digest");
}

#[test]
fn one_byte_edit_changes_the_digest() {
    assert_ne!(
        digest(vec![file("f.rs", b"fn main() {}")]),
        digest(vec![file("f.rs", b"fn main() { }")]),
        "edit must be visible"
    );
}

#[test]
fn target_and_git_are_excluded() {
    assert!(is_excluded("target"));
    assert!(is_excluded(".git"));
    assert!(is_excluded(".repolith"));
    assert!(!is_excluded("src"));
    assert!(!is_excluded(".gitignore"));
}

#[test]
fn adding_a_file_changes_the_digest() {
    assert_ne!(
        digest(vec![file("a.rs", b"a")]),
        digest(vec![file("a.rs", b"a"), file("b.rs", b"b")]),
        "new file must be visible"
    );
}

#[test]
fn renaming_changes_the_digest() {
    assert_ne!(digest(vec![file("a.rs", b"same")]), digest(vec![file("b.rs", b"same")]));
}

#[test]
fn several_changes_at_once_change_the_digest() {
    let before = digest(vec![file("a.rs", b"one"), file("b.rs", b"two"), file("bin", b"\0\x01")]);
    assert_ne!(
        before,
        digest(vec![file("a.rs", b"one\nb.rs"), file("c.rs", b"two"), file("bin", b"\0\x02")])
    );
    assert_ne!(before, digest(vec![file("a.rs", b"two"), file("b.rs", b"one")]));
    assert_eq!(
        digest(vec![file("a", b"x\nb\0ok:y")]),
        digest(vec![file("a", b"x"), file("b", b"y")]),
        "only content that imitates the start of a file can hide one"
    );
}

#[test]
fn platform_tag_is_mixed_in() {
    let mut with = Hasher::new();
    with.update(b"x");
    platform_tag(&mut with, "x86_64", "linux");
    let mut without = Hasher::new();
    without.update(b"x");
    assert_ne!(with.finalize(), without.finalize(), "platform must contribute to the hash");
}

#[test]
fn separators_do_not_matter_and_unreadable_files_do() {
    assert_eq!(
        digest(vec![file("src\\main.rs", b"x")]),
        digest(vec![file("src/main.rs", b"x")])
    );
    let unreadable = |kind: &str| {
        digest(vec![TreeFile { rel: "f".to_string(), content: Err(kind.to_string()) }])
    };
    assert_ne!(unreadable("permission denied"), digest(vec![file("f", b"")]));
    assert_ne!(unreadable("permission denied"), unreadable("not found"));
}

/// The digests are those of the published algorithm.
/// A locked directory is a state of the tree; a locked root is an error.
#[test]
fn only_a_root_that_cannot_be_walked_fails() {
    let kind = "permission denied";
    let locked = unwalkable_entry(Some(1), "locked", kind, "m").expect("folded in");
    assert_eq!(locked.rel, "locked");
    assert_eq!(locked.content, Err(kind.to_string()));
    assert_ne!(digest(vec![locked]), digest(vec![]));
    for depth in [Some(0), None] {
        let failure = unwalkable_entry(depth, "", kind, "/t: denied").err().expect("fails");
        let err = tree_digest("/t", &Err(failure)).unwrap_err();
        assert_eq!(err.to_string(), "IO error: walk /t: /t: denied");
    }
}

#[test]
fn digests_are_sha256() {
    let h = Hasher::new();
    assert_eq!(
        h.finalize().to_string(),
        "e3b0c44298fc1c149afbf4c8996fb92427ae41e4649b934ca495991b7852b855"
    );
    let mut h = Hasher::new();
    h.update_text("ab");
    h.update(b"c");
    let abc = h.finalize();
    assert_eq!(
        abc.to_string(),
        "ba7816bf8f01cfea414140de5dae2223b00361a396177a9cb410ff61f20015ad"
    );
    assert_eq!(parse_sha256(&abc.to_string()), Some(abc));
    assert_eq!(parse_sha256(&abc.to_string().to_uppercase()), Some(abc));
    assert_eq!(parse_sha256("ab"), None);
    assert_eq!(parse_sha256(&"zz".repeat(32)), None);
    assert_eq!(to_hex(&[0, 15, 255]), "000fff");
}
