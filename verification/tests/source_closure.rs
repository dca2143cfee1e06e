use repolith::closure_walk::{metadata_args, ClosureRequest, ClosureWalk};
use repolith::command::CmdOutput;
use repolith::metadata::{metadata_of, metadata_told, parse_metadata, Meta};
use repolith::source_closure::{
    closure_digest, file_digest, source_closure_digest, tree_digest_or_marker, workspace_files,
};
use repolith::source_hash::{tree_digest, TreeFile, WalkFailure};
use repolith::types::{BuildError, Sha256};
use std::collections::BTreeMap;

/// A disk with one workspace on it.
#[derive(Clone, Default)]
struct Disk {
    /// The files of each package, by directory.
    packages: BTreeMap<String, Vec<(String, String)>>,
    /// The local dependencies of each package that cargo would report.
    deps: BTreeMap<String, Vec<String>>,
    workspace_root: String,
    workspace_manifest: String,
}

impl Disk {
    fn new(root: &str, graph: &[(&str, &[&str])]) -> Self {
        let mut d = Disk { workspace_root: root.to_string(), ..Disk::default() };
        for (name, deps) in graph {
            let dir = format!("{root}/{name}");
            d.packages.insert(dir.clone(), vec![("src/lib.rs".to_string(), String::new())]);
            d.deps.insert(dir, deps.iter().map(|x| format!("{root}/{x}")).collect());
        }
        d
    }

    fn edit(&mut self, dir: &str, content: &str) {
        self.packages.get_mut(dir).unwrap()[0].1 = content.to_string();
    }

    fn tree(&self, dir: &str) -> Result<Sha256, BuildError> {
        let found = match self.packages.get(dir) {
            None => Err(WalkFailure::Missing),
            Some(files) => Ok(files
                .iter()
                .map(|(rel, content)| TreeFile {
                    rel: rel.clone(),
                    content: Ok(content.clone().into_bytes()),
                })
                .collect()),
        };
        tree_digest(dir, &found)
    }

    fn metadata(&self, dir: &str) -> Option<Meta> {
        self.deps.get(dir)?;
        Some(Meta {
            workspace_root: self.workspace_root.clone(),
            packages: self.deps.iter().map(|(d, x)| (d.clone(), x.clone())).collect(),
        })
    }

    /// The dependency trees and workspace roots reachable from a package, how
    /// often metadata was asked for, or nothing where it is no package.
    fn closure(&self, dir: &str) -> (Option<(Vec<String>, Vec<String>)>, usize) {
        let mut walk = ClosureWalk::new(dir);
        let mut asked = 0;
        loop {
            match walk.next() {
                ClosureRequest::Metadata(d) => {
                    asked += 1;
                    walk.metadata(self.metadata(&d));
                }
                ClosureRequest::Canonicalize(p) => {
                    walk.canonical(self.packages.contains_key(&p).then_some(p));
                }
                ClosureRequest::Finished => {
                    let mut trees = walk.dep_trees().clone();
                    trees.sort();
                    return (Some((trees, walk.workspace_roots().clone())), asked);
                }
                ClosureRequest::Unresolved => return (None, asked),
            }
        }
    }

    fn digest(&self, dir: &str) -> Result<Sha256, BuildError> {
        let closure = self.closure(dir).0.map(|(trees, roots)| {
            let digests = trees.iter().map(|t| self.tree(t)).collect();
            let contents = roots
                .iter()
                .map(|_| (Some(self.workspace_manifest.clone().into_bytes()), None))
                .collect();
            (digests, contents)
        });
        closure_digest(&self.tree(dir), &closure)
    }
}

fn workspace() -> Disk {
    Disk::new("/ws", &[("app", &["lib"]), ("lib", &[])])
}

#[test]
fn editing_a_path_dependency_changes_the_digest() {
    let mut d = workspace();
    let before = d.digest("/ws/app").unwrap();
    d.edit("/ws/lib", "pub fn added() {}");
    let after = d.digest("/ws/app").unwrap();
    assert_ne!(before, after, "a path dependency's content is an input");
}

#[test]
fn editing_an_unrelated_file_does_not_change_the_digest() {
    let mut d = workspace();
    d.packages.insert("/ws/other".to_string(), vec![("x".to_string(), String::new())]);
    let before = d.digest("/ws/app").unwrap();
    d.edit("/ws/other", "# docs, not code");
    assert_eq!(before, d.digest("/ws/app").unwrap());
}

#[test]
fn editing_the_workspace_manifest_changes_the_digest() {
    let mut d = workspace();
    let before = d.digest("/ws/app").unwrap();
    d.workspace_manifest = "[profile.release]\nopt-level = \"z\"\n".to_string();
    assert_ne!(
        before,
        d.digest("/ws/app").unwrap(),
        "the workspace root manifest is an input to every member"
    );
}

#[test]
fn the_closure_is_transitive() {
    let mut d = Disk::new("/ws", &[("a", &["b"]), ("b", &["c"]), ("c", &[])]);
    let before = d.digest("/ws/a").unwrap();
    d.edit("/ws/c", "pub fn deep() {}");
    assert_ne!(before, d.digest("/ws/a").unwrap(), "a -> b -> c: editing c must reach a");
    let (found, asked) = d.closure("/ws/a");
    let (trees, roots) = found.unwrap();
    assert_eq!(trees, vec!["/ws/b", "/ws/c"]);
    assert_eq!(roots, vec!["/ws"]);
    assert_eq!(asked, 1, "one answer describes the whole workspace");
}

#[test]
fn a_path_dev_dependency_is_not_an_input() {
    let json = br#"{
      "workspace_root": "/ws",
      "packages": [{
        "manifest_path": "/ws/app/Cargo.toml",
        "dependencies": [{"name": "harness", "kind": "dev", "path": "/ws/harness"}]
      }]
    }"#;
    let meta = parse_metadata(json).expect("parses");
    let mut d = Disk::new("/ws", &[("app", &[]), ("harness", &[])]);
    d.deps.insert("/ws/app".to_string(), meta.packages[0].1.clone());
    let before = d.digest("/ws/app").unwrap();
    d.edit("/ws/harness", "pub fn helper() {}");
    assert_eq!(before, d.digest("/ws/app").unwrap());
}

#[test]
fn a_non_cargo_directory_falls_back_without_colliding() {
    let mut d = Disk::new("/ws", &[]);
    d.packages.insert("/plain".to_string(), vec![("notes.txt".to_string(), "x".to_string())]);
    assert!(d.closure("/plain").0.is_none());
    let fallback = d.digest("/plain").expect("fallback must still produce a digest");
    assert_eq!(fallback, d.digest("/plain").unwrap(), "the fallback must be deterministic");
    assert_ne!(fallback, d.tree("/plain").unwrap());
    assert_ne!(
        fallback,
        source_closure_digest(&d.tree("/plain"), &Some(vec![])).unwrap(),
        "resolved and unresolved digests must never collide"
    );
}

#[test]
fn a_missing_root_is_an_error_not_a_silent_digest() {
    assert!(workspace().digest("/nonexistent/repolith/pkg").is_err());
}

#[test]
fn dependency_cycles_end() {
    let d = Disk::new("/ws", &[("a", &["b"]), ("b", &["a", "b"])]);
    let (found, _) = d.closure("/ws/a");
    let (trees, _) = found.unwrap();
    assert_eq!(trees, vec!["/ws/b"], "the root is no dependency of its own");
}

#[test]
fn a_dependency_that_is_gone_counts_as_a_marker() {
    let mut d = Disk::new("/ws", &[("a", &["b"]), ("b", &["gone", "a"]), ("gone", &["c"]), ("c", &[])]);
    let present = d.digest("/ws/a").unwrap();
    d.packages.remove("/ws/gone");
    d.deps.remove("/ws/gone");
    let (found, _) = d.closure("/ws/a");
    let (trees, _) = found.unwrap();
    assert_eq!(trees, vec!["/ws/b", "/ws/gone"], "it is listed, and not looked into");
    let missing = d.digest("/ws/a").unwrap();
    assert_ne!(present, missing, "a tree gone missing must change the digest");
    d.deps.get_mut("/ws/b").unwrap().retain(|p| p != "/ws/gone");
    assert_ne!(missing, d.digest("/ws/a").unwrap(), "nor is it as if it were no dependency");
}

/// A dependency outside any workspace keeps its tree.
#[test]
fn an_unresolvable_dependency_still_counts() {
    let mut d = Disk::new("/ws", &[("a", &["plain"])]);
    d.packages.insert("/ws/plain".to_string(), vec![("x".to_string(), String::new())]);
    let (found, asked) = d.closure("/ws/a");
    assert_eq!(found.unwrap().0, vec!["/ws/plain"]);
    assert_eq!(asked, 2);
}

#[test]
fn trees_and_workspace_files_are_the_ingredients() {
    let root = || Ok(Sha256([1; 32]));
    let gone = || Err(BuildError::Io("gone".to_string()));
    let (a, b) = (Sha256([2; 32]), Sha256([3; 32]));
    let digest = |trees, roots| closure_digest(&root(), &Some((trees, roots))).unwrap();
    let file = |s: &str| Some(s.as_bytes().to_vec());
    assert_eq!(
        digest(vec![Ok(a), gone(), Ok(b)], vec![(file("m"), None), (None, file("l"))]),
        source_closure_digest(
            &root(),
            &Some(vec![
                b,
                tree_digest_or_marker(&gone()),
                a,
                file_digest("ws-lock:", &file("l")),
                file_digest("ws-lock:", &None),
                file_digest("ws-manifest:", &None),
                file_digest("ws-manifest:", &file("m")),
            ])
        )
        .unwrap()
    );
    assert_ne!(digest(vec![], vec![(file("x"), None)]), digest(vec![], vec![(None, file("x"))]));
    assert_ne!(digest(vec![], vec![(file(""), None)]), digest(vec![], vec![(None, None)]));
    assert_ne!(digest(vec![gone()], vec![]), digest(vec![], vec![]));
    assert_eq!(
        closure_digest(&root(), &None).unwrap(),
        source_closure_digest(&root(), &None).unwrap()
    );
    assert!(closure_digest(&gone(), &Some((vec![Ok(a)], vec![]))).is_err());
    assert_eq!(
        workspace_files("/ws"),
        ("/ws/Cargo.toml".to_string(), "/ws/Cargo.lock".to_string())
    );
}

/// The same sources somewhere else, under another workspace directory.
#[test]
fn where_the_sources_lie_does_not_matter() {
    let graph: &[(&str, &[&str])] = &[("app", &["lib", "gone"]), ("lib", &["app"])];
    let here = Disk::new("/ws", graph);
    let there = Disk::new("/home/u/other", graph);
    assert_eq!(
        here.digest("/ws/app").unwrap(),
        there.digest("/home/u/other/app").unwrap()
    );
}

#[test]
fn a_failed_run_of_cargo_tells_nothing() {
    let run = |success| CmdOutput {
        success,
        code: Some(0),
        stdout: br#"{"workspace_root": "/ws", "packages": []}"#.to_vec(),
        stderr: vec![],
    };
    assert_eq!(metadata_told(&Some(run(true))).unwrap().workspace_root, "/ws");
    assert!(metadata_told(&Some(run(false))).is_none());
    assert!(metadata_told(&None).is_none());
}

#[test]
fn the_order_of_ingredients_does_not_matter() {
    let root = Ok(Sha256([1; 32]));
    let (a, b) = (Sha256([2; 32]), Sha256([3; 32]));
    let digest = |list: Vec<Sha256>| source_closure_digest(&root, &Some(list)).unwrap();
    assert_eq!(digest(vec![a, b]), digest(vec![b, a, b]));
    assert_ne!(digest(vec![a, b]), digest(vec![a]));
    assert_ne!(
        file_digest("ws-manifest:", &Some(vec![])),
        file_digest("ws-lock:", &Some(vec![])),
        "labels keep equal files apart"
    );
    assert_ne!(file_digest("ws-lock:", &Some(vec![])), file_digest("ws-lock:", &None));
}

#[test]
fn parse_metadata_keeps_build_deps_and_drops_dev_deps() {
    let json = br#"{
      "workspace_root": "/ws",
      "packages": [{
        "manifest_path": "/ws/app/Cargo.toml",
        "dependencies": [
          {"name": "normal",   "kind": null,    "path": "/ws/normal"},
          {"name": "builder",  "kind": "build", "path": "/ws/builder"},
          {"name": "harness",  "kind": "dev",   "path": "/ws/harness"},
          {"name": "registry", "kind": null,    "path": null}
        ]
      }]
    }"#;
    let meta = parse_metadata(json).expect("parses");
    assert_eq!(meta.workspace_root, "/ws");
    let (dir, deps) = &meta.packages[0];
    assert_eq!(dir, "/ws/app");
    assert_eq!(
        deps,
        &vec!["/ws/normal", "/ws/builder"],
        "normal and build deps are compiled; dev deps are not; registry deps have no local tree"
    );
}

#[test]
fn parse_metadata_survives_unknown_fields() {
    let json = br#"{
      "workspace_root": "/ws",
      "some_future_field": {"a": 1},
      "packages": [{
        "manifest_path": "/ws/app/Cargo.toml",
        "brand_new_key": 42,
        "dependencies": []
      }]
    }"#;
    assert!(parse_metadata(json).is_some());
}

#[test]
fn metadata_needs_a_root_and_packages() {
    assert!(parse_metadata(b"not json").is_none());
    assert!(parse_metadata(br#"{"packages": []}"#).is_none());
    assert!(parse_metadata(br#"{"workspace_root": 1, "packages": []}"#).is_none());
    assert!(parse_metadata(br#"{"workspace_root": "/ws", "packages": {}}"#).is_none());
    let v: serde_json::Value = serde_json::from_str(
        r#"{"workspace_root": "/ws", "packages": [{}, {"manifest_path": "/"}, 7]}"#,
    )
    .unwrap();
    assert_eq!(
        metadata_of(&v),
        Some(Meta { workspace_root: "/ws".to_string(), packages: vec![] })
    );
}

#[test]
fn cargo_is_asked_about_one_manifest() {
    assert_eq!(
        metadata_args("/ws/app"),
        vec![
            "metadata",
            "--no-deps",
            "--format-version",
            "1",
            "--manifest-path",
            "/ws/app/Cargo.toml",
        ]
    );
}
