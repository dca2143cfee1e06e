use repolith::cargo_install::{CargoInstall, CargoSource};
use repolith::command::CmdOutput;
use repolith::source_hash::{tree_digest, TreeFile};
use repolith::steps::{Answer, Host, Request, Step};
use repolith::types::{ActionId, BuildError, Sha256};

fn version() -> CmdOutput {
    CmdOutput {
        success: true,
        code: Some(0),
        stdout: b"cargo 1.90.0\n".to_vec(),
        stderr: vec![],
    }
}

fn action(features: &[&str]) -> CargoInstall {
    CargoInstall {
        id: ActionId("hello::cargo-install::0".to_string()),
        source: CargoSource::Path { path: "/src/hello_world".to_string() },
        crate_name: Some("hello-world".to_string()),
        package: None,
        profile: None,
        features: features.iter().map(|f| f.to_string()).collect(),
        install_to: "/opt".to_string(),
        deps: vec![],
    }
}

fn tree(main_rs: &str) -> Sha256 {
    let files = vec![TreeFile {
        rel: "src/main.rs".to_string(),
        content: Ok(main_rs.as_bytes().to_vec()),
    }];
    tree_digest("/src/hello_world", &Ok(files)).expect("digest")
}

fn hash(a: &CargoInstall, tree: Option<Sha256>) -> Sha256 {
    a.input_hash(tree, "x86_64", "linux", &version()).expect("hash")
}

#[test]
fn install_from_path_produces_binary() {
    let a = action(&[]);
    assert_eq!(
        a.install_args("/opt"),
        vec![
            "install",
            "--path",
            "/src/hello_world",
            "--bin",
            "hello-world",
            "--locked",
            "--force",
            "--root",
            "/opt",
        ]
    );
    let bin = a.installed_bin("/opt", "");
    assert_eq!(bin, "/opt/bin/hello-world");
    let out = a.output(&bin, &Ok(b"ELF".to_vec())).expect("output");
    assert!(out.stdout.contains("hello-world"));
    assert_eq!(out.stdout, "installed -> /opt/bin/hello-world");
    assert_eq!(
        out.output_hash.to_string(),
        "706abe3c90152075e656b661079730facf323f3ebccda7547ee1935c90845a09"
    );
}

#[test]
fn input_hash_includes_features() {
    let t = Some(tree("fn main() {}"));
    let plain = hash(&action(&[]), t);
    let loud = hash(&action(&["loud"]), t);
    assert_ne!(plain, loud, "different features must yield different input_hash");
    assert_eq!(plain, hash(&action(&[]), t));
}

#[test]
fn input_hash_follows_source_content_not_the_path() {
    let a = action(&[]);
    let before = hash(&a, Some(tree("fn main() {}")));
    let after = hash(&a, Some(tree("fn main() {}\n// local edit\n")));
    assert_ne!(before, after, "a local edit must change input_hash");
    let mut moved = action(&[]);
    moved.source = CargoSource::Path { path: "/elsewhere".to_string() };
    assert_eq!(before, hash(&moved, Some(tree("fn main() {}"))), "the path itself is no input");
}

#[test]
fn input_hash_is_stable_when_nothing_changes() {
    let a = action(&[]);
    let t = Some(tree("fn main() {}"));
    assert_eq!(hash(&a, t), hash(&a, t));
}

#[test]
fn input_hash_survives_a_missing_source_tree() {
    let a = action(&[]);
    assert_eq!(hash(&a, None), hash(&a, None), "pre-clone marker must be deterministic");
    assert_ne!(hash(&a, None), hash(&a, Some(tree(""))));
}

#[test]
fn output_present_tracks_the_installed_binary() {
    let mut a = action(&[]);
    let host = Host {
        home: None,
        arch: "x86_64".to_string(),
        os: "linux".to_string(),
        exe_suffix: String::new(),
    };
    let present = |found: bool| {
        assert!(matches!(
            a.present_step(&host, &vec![]),
            Step::Ask(Request::IsFile(bin)) if bin == "/opt/bin/hello-world"
        ));
        match a.present_step(&host, &vec![Answer::Flag(found)]) {
            Step::Done(Ok(there)) => there,
            _ => panic!("a file is there or it is not"),
        }
    };
    assert!(!present(false), "nothing installed yet");
    assert!(present(true), "binary is installed");
    assert!(
        !present(false),
        "a deleted binary must be reported missing — this is what makes a \
         cache entry written by another machine safe to distrust"
    );
    assert_eq!(a.installed_bin("/opt", ".exe"), "/opt/bin/hello-world.exe");
    a.crate_name = None;
    assert_eq!(a.installed_bin("/opt/", ""), "/opt/bin/0", "the last part of the id");
}

#[test]
fn input_hash_distinguishes_the_selected_package() {
    let t = Some(tree("fn main() {}"));
    let mut a = action(&[]);
    a.package = Some("pkg-a".to_string());
    let mut b = action(&[]);
    b.package = Some("pkg-b".to_string());
    let none = action(&[]);
    assert_ne!(hash(&a, t), hash(&b, t), "different packages must hash differently");
    assert_ne!(hash(&a, t), hash(&none, t), "selecting a package must differ from not selecting");
}

#[test]
fn input_hash_distinguishes_the_build_profile() {
    let t = Some(tree("fn main() {}"));
    let release = action(&[]);
    let mut dev = action(&[]);
    dev.profile = Some("dev".to_string());
    let mut custom = action(&[]);
    custom.profile = Some("release-lto".to_string());
    assert_ne!(hash(&release, t), hash(&dev, t), "release and dev must hash differently");
    assert_ne!(hash(&dev, t), hash(&custom, t), "two named profiles must hash differently");
}

/// Where one text ends and the next begins shows, and nothing else matters.
#[test]
fn the_choices_of_the_manifest_are_the_input() {
    let t = Some(tree("fn main() {}"));
    let mut a = action(&["x"]);
    a.crate_name = Some("y".to_string());
    let mut b = action(&["x", "y"]);
    b.crate_name = Some("y".to_string());
    b.package = Some("p".to_string());
    b.profile = Some("dev".to_string());
    assert_ne!(hash(&a, t), hash(&b, t));
    let mut c = action(&["x"]);
    c.id = ActionId("other::cargo-install::7".to_string());
    c.source = CargoSource::Path { path: "/elsewhere".to_string() };
    c.crate_name = Some("y".to_string());
    c.package = Some(String::new());
    c.install_to = "/usr".to_string();
    c.deps = vec![ActionId("up::git-clone::0".to_string())];
    assert_eq!(hash(&a, t), hash(&c, t));
    assert_eq!(
        hash(&action(&["a:feat:b"]), t),
        hash(&action(&["a", "b"]), t),
        "a colon in a feature name can imitate two features"
    );
}

#[test]
fn dev_profile_installs_a_working_binary() {
    let mut a = action(&["x", "y"]);
    a.profile = Some("dev".to_string());
    a.package = Some("pkg".to_string());
    a.source = CargoSource::Git {
        url: "https://example.com/r".to_string(),
        branch: Some("main".to_string()),
    };
    assert_eq!(
        a.install_args("/r"),
        vec![
            "install",
            "--git",
            "https://example.com/r",
            "--branch",
            "main",
            "pkg",
            "--bin",
            "hello-world",
            "--profile",
            "dev",
            "--features",
            "x,y",
            "--locked",
            "--force",
            "--root",
            "/r",
        ]
    );
}

#[test]
fn the_platform_and_the_toolchain_are_inputs() {
    let a = action(&[]);
    let t = Some(tree(""));
    let h = |arch: &str, os: &str, v: &[u8]| {
        let mut out = version();
        out.stdout = v.to_vec();
        a.input_hash(t, arch, os, &out).unwrap()
    };
    assert_ne!(h("x86_64", "linux", b"1"), h("aarch64", "linux", b"1"));
    assert_ne!(h("x86_64", "linux", b"1"), h("x86_64", "macos", b"1"));
    assert_ne!(h("x86_64", "linux", b"1"), h("x86_64", "linux", b"2"));
}

#[test]
fn without_cargo_there_is_no_hash() {
    let mut v = version();
    v.success = false;
    match action(&[]).input_hash(None, "x86_64", "linux", &v) {
        Err(BuildError::UpstreamUnreachable(m)) => assert_eq!(m, "cargo --version failed"),
        other => panic!("expected UpstreamUnreachable, got {other:?}"),
    }
}

#[test]
fn an_unreadable_binary_is_an_error() {
    match action(&[]).output("/b", &Err("gone".to_string())) {
        Err(BuildError::Io(m)) => assert_eq!(m, "read installed binary /b: gone"),
        other => panic!("expected Io, got {other:?}"),
    }
}
