use repolith::paths::{
    contain_within, expand_tilde, expand_tilde_in, is_within, join_path, parent, path_components,
    same_path,
};

fn ok(p: &str) -> Result<String, String> {
    Ok(p.to_string())
}

#[test]
fn accepts_inner_path() {
    let got = contain_within("/base", &ok("/base"), "sub", &ok("/base/sub")).unwrap();
    assert_eq!(got, "/base/sub");
}

#[test]
fn rejects_missing_path() {
    let missing = Err("No such file or directory".to_string());
    let err = contain_within("/base", &ok("/base"), "absent", &missing).unwrap_err();
    assert_eq!(
        err.to_string(),
        "IO error: canonicalize /base/absent: No such file or directory"
    );
    let err = contain_within("/base", &missing, "absent", &missing).unwrap_err();
    assert_eq!(
        err.to_string(),
        "IO error: canonicalize base /base: No such file or directory"
    );
}

#[test]
fn rejects_symlink_escape() {
    let err = contain_within("/base", &ok("/base"), "evil", &ok("/outside")).unwrap_err();
    assert!(err.to_string().contains("escapes"), "got: {}", err.to_string());
}

#[test]
fn rejects_symlinked_file_escape() {
    let err =
        contain_within("/base", &ok("/base"), "Dockerfile", &ok("/base2/secret")).unwrap_err();
    assert_eq!(
        err.to_string(),
        "IO error: path /base2/secret escapes the node checkout /base (symlink traversal?)"
    );
}

#[test]
fn contain_within_accepts_inner_path() {
    assert!(contain_within("/d", &ok("/real/d"), "sub", &ok("/real/d/sub")).is_ok());
}

#[test]
fn contain_within_rejects_missing_path() {
    assert!(contain_within("/d", &ok("/d"), "absent", &Err("gone".to_string())).is_err());
}

#[test]
fn contain_within_rejects_symlink_escape() {
    let err = contain_within("/d", &ok("/d"), "evil", &ok("/")).unwrap_err();
    assert!(err.to_string().contains("escapes"), "got: {}", err.to_string());
}

#[test]
fn contain_within_rejects_symlinked_file_escape() {
    let err = contain_within("/d", &ok("/d"), "Dockerfile", &ok("/etc/passwd")).unwrap_err();
    assert!(err.to_string().contains("escapes"), "got: {}", err.to_string());
}

#[test]
fn components_ignore_what_names_nothing() {
    assert_eq!(path_components("/a//b/./c/"), vec!["/", "a", "b", "c"]);
    assert_eq!(path_components("./a"), vec![".", "a"]);
    assert_eq!(path_components("a/.."), vec!["a", ".."]);
    assert!(path_components("").is_empty());
    assert!(same_path("/a/b", "/a//b/"));
    assert!(!same_path("/a/b", "a/b"));
    assert!(is_within("/a/b", "/a"));
    assert!(is_within("/a", "/a/"));
    assert!(!is_within("/ab", "/a"));
}

#[test]
fn joining_and_parents() {
    assert_eq!(join_path("/a", "b"), "/a/b");
    assert_eq!(join_path("/a/", "b"), "/a/b");
    assert_eq!(join_path("/a", "/b"), "/b");
    assert_eq!(join_path("", "b"), "b");
    assert_eq!(parent("/a/b").as_deref(), Some("/a"));
    assert_eq!(parent("/a").as_deref(), Some("/"));
    assert_eq!(parent("a").as_deref(), Some(""));
    assert_eq!(parent("/"), None);
    assert_eq!(parent(""), None);
}

#[test]
fn only_a_leading_tilde_is_the_home_directory() {
    let home = Some("/home/u".to_string());
    assert_eq!(expand_tilde_in("~/x", &home), "/home/u/x");
    assert_eq!(expand_tilde_in("~", &home), "/home/u");
    assert_eq!(expand_tilde_in("~x", &home), "~x");
    assert_eq!(expand_tilde_in("a/~", &home), "a/~");
    assert_eq!(expand_tilde_in("~/x", &None), "~/x");
    assert_eq!(expand_tilde("/abs"), "/abs");
    let home = dirs::home_dir().map(|p| p.to_string_lossy().into_owned());
    assert_eq!(expand_tilde("~/x"), expand_tilde_in("~/x", &home));
}
