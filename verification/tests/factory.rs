use repolith::cargo_install::CargoSource;
use repolith::factory::{
    build_actions_from_manifest, build_actions_in, default_install_to, BuiltAction, FactoryCtx,
    FactoryError,
};
use repolith::graph::layer_graph;
use repolith::manifest::{ActionEntry, Manifest, NodeEntry, OrchestratorMeta};
use repolith::types::{ActionId, ExecMode};

fn node(id: &str, git: Option<&str>, path: Option<&str>, actions: Vec<ActionEntry>) -> NodeEntry {
    NodeEntry {
        id: id.to_string(),
        git: git.map(str::to_string),
        path: path.map(str::to_string),
        actions,
    }
}

fn install() -> ActionEntry {
    ActionEntry::CargoInstall {
        crate_name: None,
        package: None,
        features: vec!["f".to_string()],
        profile: None,
        install_to: None,
    }
}

fn docker() -> ActionEntry {
    ActionEntry::Docker { tag: "t".to_string(), dockerfile: None, context: None }
}

fn manifest(nodes: Vec<NodeEntry>) -> Manifest {
    Manifest {
        orchestrator: OrchestratorMeta {
            schema_version: "0.1".to_string(),
            name: "t".to_string(),
        },
        nodes,
    }
}

fn ctx() -> FactoryCtx {
    FactoryCtx {
        base_dir: "/stack".to_string(),
        chain: vec!["/stack/repolith.toml".to_string()],
        mode: ExecMode::KeepGoing,
    }
}

fn build(nodes: Vec<NodeEntry>) -> Result<Vec<BuiltAction>, FactoryError> {
    build_actions_in(&manifest(nodes), &ctx(), &Some("/home/u".to_string()))
}

#[test]
fn actions_of_a_node_depend_on_the_one_before() {
    let m = manifest(vec![
        node("a", Some("https://x/a"), Some("a"), vec![ActionEntry::GitClone, install(), docker()]),
        node("b", Some("https://x/b"), None, vec![ActionEntry::GitClone, install()]),
    ]);
    let built = build_actions_in(&m, &ctx(), &None).unwrap();
    let specs: Vec<_> = built.iter().map(|a| a.spec()).collect();
    let ids: Vec<ActionId> = specs.iter().map(|s| s.id.clone()).collect();
    assert_eq!(ids, m.action_ids());
    assert!(specs[0].deps.is_empty());
    assert_eq!(specs[1].deps, vec![ids[0].clone()]);
    assert_eq!(specs[2].deps, vec![ids[1].clone()]);
    assert!(specs[3].deps.is_empty());
    assert_eq!(specs[4].deps, vec![ids[3].clone()]);
    let layers = layer_graph(&specs).expect("a valid manifest can be planned");
    assert_eq!(layers.len(), 3);
    assert_eq!(build_actions_from_manifest(&m, &ctx()).unwrap().len(), 5);
}

#[test]
fn a_clone_goes_next_to_the_manifest_by_default() {
    let built = build(vec![
        node("a", Some("https://x/a"), None, vec![ActionEntry::GitClone]),
        node("b", Some("https://x/b"), Some("../libs/b"), vec![ActionEntry::GitClone]),
        node("c", Some("https://x/c"), Some("~/c"), vec![ActionEntry::GitClone]),
    ])
    .unwrap();
    let paths: Vec<&str> = built
        .iter()
        .map(|a| match a {
            BuiltAction::GitClone(g) => g.path.as_str(),
            other => panic!("expected GitClone, got {other:?}"),
        })
        .collect();
    assert_eq!(paths, vec!["/stack/a", "/stack/../libs/b", "/home/u/c"]);
}

#[test]
fn an_install_prefers_the_local_tree() {
    let built = build(vec![
        node("a", Some("https://x/a"), Some("a"), vec![install()]),
        node("b", Some("https://x/b"), None, vec![install()]),
    ])
    .unwrap();
    match &built[0] {
        BuiltAction::CargoInstall(i) => {
            assert!(matches!(&i.source, CargoSource::Path { path } if path == "/stack/a"));
            assert_eq!(i.crate_name.as_deref(), Some("a"));
            assert_eq!(i.install_to, "/home/u/.repolith");
            assert_eq!(i.features, vec!["f"]);
        }
        other => panic!("expected CargoInstall, got {other:?}"),
    }
    match &built[1] {
        BuiltAction::CargoInstall(i) => assert!(matches!(
            &i.source,
            CargoSource::Git { url, branch: None } if url == "https://x/b"
        )),
        other => panic!("expected CargoInstall, got {other:?}"),
    }
    assert_eq!(default_install_to(&None), "./.repolith");
}

#[test]
fn a_child_stack_inherits_the_chain_and_the_mode() {
    let entry = ActionEntry::Repolith { manifest: Some("m.toml".to_string()) };
    let built = build(vec![node("a", None, Some("/abs"), vec![entry, docker()])]).unwrap();
    match &built[0] {
        BuiltAction::Repolith(r) => {
            assert_eq!(r.node_path, "/abs");
            assert_eq!(r.manifest_rel.as_deref(), Some("m.toml"));
            assert_eq!(r.chain, vec!["/stack/repolith.toml"]);
            assert_eq!(r.mode, ExecMode::KeepGoing);
        }
        other => panic!("expected Repolith, got {other:?}"),
    }
    assert!(built[0].is_coordinator());
    assert!(!built[1].is_coordinator());
}

#[test]
fn a_node_without_what_an_action_needs_is_refused() {
    let text = |nodes| build(nodes).unwrap_err().to_string();
    assert_eq!(
        text(vec![node("a", None, Some("a"), vec![ActionEntry::GitClone])]),
        "node `a`: git-clone action requires `git` URL on the node"
    );
    assert_eq!(
        text(vec![node("a", None, None, vec![install()])]),
        "node `a`: cargo-install action requires either `git` or `path` on the node"
    );
    assert_eq!(
        text(vec![node("a", Some("https://x/a"), None, vec![docker()])]),
        "node `a`: docker action requires `path` on the node (build context base)"
    );
    let child = ActionEntry::Repolith { manifest: None };
    assert_eq!(
        text(vec![
            node("ok", Some("https://x/a"), None, vec![ActionEntry::GitClone]),
            node("a", Some("https://x/a"), None, vec![child, ActionEntry::GitClone]),
        ]),
        "node `a`: repolith action requires `path` on the node (child stack root)"
    );
}
