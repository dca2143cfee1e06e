use repolith::cargo_install::{CargoInstall, CargoSource};
use repolith::command::CmdOutput;
use repolith::docker::DockerBuild;
use repolith::factory::BuiltAction;
use repolith::federation::RepolithSync;
use repolith::git_clone::{hash_url_and_sha, GitClone};
use repolith::steps::{Answer, Host, Request, Step};
use repolith::types::{
    ActionId, BuildError, BuildEvent, BuildOutput, ExecMode, Sha256,
};

fn aid(s: &str) -> ActionId {
    ActionId(s.to_string())
}

fn host() -> Host {
    Host {
        arch: "x86_64".to_string(),
        os: "linux".to_string(),
        exe_suffix: String::new(),
        home: Some("/home/u".to_string()),
    }
}

fn ok(stdout: &str) -> Answer {
    Answer::Output(Ok(CmdOutput {
        success: true,
        code: Some(0),
        stdout: stdout.as_bytes().to_vec(),
        stderr: vec![],
    }))
}

fn failed(code: i32, stderr: &str) -> Answer {
    Answer::Output(Ok(CmdOutput {
        success: false,
        code: Some(code),
        stdout: vec![],
        stderr: stderr.as_bytes().to_vec(),
    }))
}

fn path(p: &str) -> Answer {
    Answer::Path(Ok(p.to_string()))
}

/// One line per question.
fn line(q: Request) -> String {
    match q {
        Request::Exists(p) => format!("exists {p}"),
        Request::IsDir(p) => format!("dir {p}"),
        Request::IsFile(p) => format!("file {p}"),
        Request::CreateDirs(p) => format!("mkdir {p}"),
        Request::Canonicalize(p) => format!("where {p}"),
        Request::Read(p) => format!("read {p}"),
        Request::TreeDigest(p) => format!("tree {p}"),
        Request::Run { program, args } => format!("{program} {}", args.join(" ")),
        Request::SyncStack { manifest, dir, chain, mode } => {
            format!("sync {manifest} in {dir} below {} as {mode:?}", chain.len())
        }
    }
}

/// Hands out the answers one by one, and returns the questions and the outcome.
fn drive<T>(
    mut step: impl FnMut(&Vec<Answer>) -> Step<T>,
    canned: Vec<Answer>,
) -> (Vec<String>, Result<T, BuildError>) {
    let mut given = Vec::new();
    let mut asked = Vec::new();
    let mut canned = canned.into_iter();
    loop {
        match step(&given) {
            Step::Done(r) => {
                assert!(canned.next().is_none(), "done too early, after {asked:?}");
                return (asked, r);
            }
            Step::Ask(q) => {
                asked.push(line(q));
                given.push(canned.next().unwrap_or_else(|| panic!("no answer for {asked:?}")));
            }
        }
    }
}

fn hash(a: &BuiltAction, canned: Vec<Answer>) -> (Vec<String>, Result<Sha256, BuildError>) {
    drive(|given| a.hash_step(&host(), given), canned)
}

fn run(a: &BuiltAction, canned: Vec<Answer>) -> (Vec<String>, Result<BuildOutput, BuildError>) {
    drive(|given| a.run_step(&host(), given), canned)
}

fn clone(path: &str) -> BuiltAction {
    BuiltAction::GitClone(GitClone {
        id: aid("n::git-clone::0"),
        repo_url: "https://h/r".to_string(),
        path: path.to_string(),
        deps: vec![],
    })
}

fn install(path: &str) -> BuiltAction {
    BuiltAction::CargoInstall(CargoInstall {
        id: aid("n::cargo-install::0"),
        source: CargoSource::Path { path: path.to_string() },
        crate_name: Some("tool".to_string()),
        package: None,
        profile: None,
        features: vec![],
        install_to: "~/.repolith".to_string(),
        deps: vec![],
    })
}

fn docker() -> BuiltAction {
    BuiltAction::Docker(DockerBuild {
        id: aid("n::docker::0"),
        tag: "app:1".to_string(),
        dockerfile: None,
        context: Some("build".to_string()),
        node_path: "n".to_string(),
        deps: vec![],
    })
}

fn stack(chain: &[&str]) -> BuiltAction {
    BuiltAction::Repolith(RepolithSync {
        id: aid("n::repolith::0"),
        node_path: "n".to_string(),
        manifest_rel: None,
        chain: chain.iter().map(|c| c.to_string()).collect(),
        mode: ExecMode::KeepGoing,
        deps: vec![],
    })
}

#[test]
fn a_clone_asks_the_remote_for_its_head() {
    let (asked, h) = hash(&clone("/w/n"), vec![ok("abc\tHEAD\n")]);
    assert_eq!(asked, vec!["git ls-remote -- https://h/r HEAD"]);
    assert_eq!(h.unwrap(), hash_url_and_sha("https://h/r", "abc"));
}

#[test]
fn a_first_clone_makes_the_directory_above_it() {
    let (asked, out) = run(
        &clone("/w/n"),
        vec![Answer::Flag(false), Answer::Created(Ok(())), ok(""), ok("abc\n")],
    );
    assert_eq!(
        asked,
        vec![
            "dir /w/n/.git",
            "mkdir /w",
            "git clone --quiet -- https://h/r /w/n",
            "git -C /w/n rev-parse HEAD",
        ]
    );
    assert_eq!(out.unwrap().stdout, "HEAD abc");
    let (asked, out) = run(
        &clone("/w/n"),
        vec![Answer::Flag(false), Answer::Created(Err("read-only".to_string()))],
    );
    assert_eq!(asked.len(), 2);
    assert_eq!(out.unwrap_err().to_string(), "IO error: create_dir_all: read-only");
}

#[test]
fn a_clone_in_the_working_directory_needs_no_directory() {
    let (asked, _) = run(&clone("n"), vec![Answer::Flag(false), ok(""), ok("abc")]);
    assert_eq!(
        asked,
        vec!["dir n/.git", "git clone --quiet -- https://h/r n", "git -C n rev-parse HEAD"]
    );
}

#[test]
fn an_existing_clone_is_fetched_and_reset() {
    let (asked, out) = run(&clone("/w/n"), vec![Answer::Flag(true), ok(""), ok(""), ok("abc\n")]);
    assert_eq!(
        asked,
        vec![
            "dir /w/n/.git",
            "git -C /w/n fetch origin --quiet",
            "git -C /w/n reset --hard FETCH_HEAD --quiet",
            "git -C /w/n rev-parse HEAD",
        ]
    );
    assert!(out.is_ok());
}

#[test]
fn a_failed_command_is_the_last_one() {
    let (asked, out) = run(&clone("/w/n"), vec![Answer::Flag(true), failed(128, "gone\n")]);
    assert_eq!(asked.len(), 2);
    assert!(matches!(
        out,
        Err(BuildError::CommandFailed { exit_code: 128, stderr }) if stderr == "gone"
    ));
    let (asked, out) = run(
        &clone("/w/n"),
        vec![Answer::Flag(true), ok(""), Answer::Output(Err(BuildError::Cancelled))],
    );
    assert_eq!(asked.len(), 3);
    assert!(matches!(out, Err(BuildError::Cancelled)));
}

#[test]
fn an_install_digests_its_sources_before_it_asks_for_the_toolchain() {
    let found = vec![Answer::Flag(true), Answer::Digest(Ok(Sha256([7; 32]))), ok("cargo 1\n")];
    let (asked, with) = hash(&install("~/src"), found);
    assert_eq!(asked, vec!["exists /home/u/src", "tree /home/u/src", "cargo --version"]);
    let (asked, without) = hash(&install("~/src"), vec![Answer::Flag(false), ok("cargo 1\n")]);
    assert_eq!(asked, vec!["exists /home/u/src", "cargo --version"]);
    assert_ne!(with.unwrap(), without.unwrap());
    let broken = Answer::Digest(Err(BuildError::Io("walk".to_string())));
    let (_, out) = hash(&install("/s"), vec![Answer::Flag(true), broken]);
    assert!(matches!(out, Err(BuildError::Io(m)) if m == "walk"));
}

#[test]
fn an_install_reads_its_binary_back() {
    let bytes = Answer::Bytes(Ok(b"elf".to_vec()));
    let (asked, out) = run(&install("/s"), vec![ok(""), bytes]);
    assert_eq!(
        asked,
        vec![
            "cargo install --path /s --bin tool --locked --force --root /home/u/.repolith",
            "read /home/u/.repolith/bin/tool",
        ]
    );
    assert_eq!(out.unwrap().stdout, "installed -> /home/u/.repolith/bin/tool");
}

#[test]
fn only_an_installed_binary_is_looked_for() {
    let present = |a: &BuiltAction, canned| drive(|given| a.present_step(&host(), given), canned);
    let (asked, found) = present(&install("/s"), vec![Answer::Flag(false)]);
    assert_eq!(asked, vec!["file /home/u/.repolith/bin/tool"]);
    assert!(!found.unwrap());
    let (asked, found) = present(&clone("/w/n"), vec![]);
    assert!(asked.is_empty());
    assert!(found.unwrap());
}

#[test]
fn a_build_resolves_its_paths_before_it_reads_anything() {
    let (asked, out) = hash(&docker(), vec![Answer::Flag(false)]);
    assert_eq!(asked, vec!["exists n"]);
    let marker = out.unwrap();
    let (asked, out) = hash(
        &docker(),
        vec![
            Answer::Flag(true),
            path("/w/n"),
            path("/w/n/build"),
            path("/w/n/build/Dockerfile"),
            Answer::Bytes(Ok(b"FROM x".to_vec())),
            failed(128, "no git"),
            ok("Docker 1"),
        ],
    );
    assert_eq!(
        asked,
        vec![
            "exists n",
            "where n",
            "where /w/n/build",
            "where /w/n/build/Dockerfile",
            "read /w/n/build/Dockerfile",
            "git -C /w/n/build rev-parse HEAD",
            "docker --version",
        ]
    );
    assert_ne!(out.unwrap(), marker);
}

#[test]
fn a_build_never_leaves_the_checkout() {
    let (asked, out) = run(&docker(), vec![path("/w/n"), path("/etc")]);
    assert_eq!(asked, vec!["where n", "where /w/n/build"]);
    assert!(out.unwrap_err().to_string().contains("escapes"));
    let (asked, out) = run(&docker(), vec![Answer::Path(Err("no such file".to_string()))]);
    assert_eq!(asked, vec!["where n"]);
    assert_eq!(out.unwrap_err().to_string(), "IO error: canonicalize base n: no such file");
    let (asked, out) = run(
        &docker(),
        vec![path("/w/n"), path("/w/n/build"), path("/w/n/build/D"), ok(""), ok("sha256:1\n")],
    );
    assert_eq!(
        asked[3..],
        [
            "docker build -f /w/n/build/D -t app:1 -- /w/n/build",
            "docker image inspect --format {{.Id}} -- app:1",
        ]
    );
    assert_eq!(out.unwrap().stdout, "built app:1 -> sha256:1");
}

#[test]
fn a_stack_without_a_checkout_hashes_to_a_marker() {
    let missing = || Answer::Path(Err("gone".to_string()));
    let (asked, out) = hash(&stack(&[]), vec![missing(), Answer::Flag(false)]);
    assert_eq!(asked, vec!["where n", "exists n"]);
    assert!(out.is_ok());
    let (_, out) = hash(&stack(&[]), vec![missing(), Answer::Flag(true)]);
    assert_eq!(out.unwrap_err().to_string(), "IO error: canonicalize base n: gone");
    let (asked, out) = hash(
        &stack(&[]),
        vec![
            path("/w/n"),
            path("/w/n/repolith.toml"),
            Answer::Bytes(Ok(b"[orchestrator]".to_vec())),
            ok("abc"),
        ],
    );
    assert_eq!(
        asked,
        vec![
            "where n",
            "where /w/n/repolith.toml",
            "read /w/n/repolith.toml",
            "git -C n rev-parse HEAD",
        ]
    );
    assert!(out.is_ok());
}

#[test]
fn a_stack_is_run_below_its_ancestors() {
    let event = BuildEvent::Success {
        id: aid("x"),
        input: Sha256([1; 32]),
        output: Sha256([2; 32]),
        ms: 1,
    };
    let (asked, out) = run(
        &stack(&["/w/repolith.toml"]),
        vec![path("/w/n"), path("/w/n/repolith.toml"), Answer::Events(Ok(vec![event]))],
    );
    assert_eq!(asked[2], "sync /w/n/repolith.toml in /w/n below 2 as KeepGoing");
    assert_eq!(out.unwrap().stdout, "child stack /w/n synced — 1 action(s)");
    let (asked, out) = run(
        &stack(&["/w/n/repolith.toml"]),
        vec![path("/w/n"), path("/w/n/repolith.toml")],
    );
    assert_eq!(asked.len(), 2);
    assert!(out.unwrap_err().to_string().contains("federation cycle"));
}

#[test]
fn an_answer_of_another_kind_counts_as_cancelled() {
    let (_, out) = run(&clone("/w/n"), vec![path("/w")]);
    assert!(matches!(out, Err(BuildError::Cancelled)));
    let (_, out) = hash(&docker(), vec![Answer::Flag(true), Answer::Flag(true)]);
    assert!(matches!(out, Err(BuildError::Cancelled)));
}

#[test]
fn a_host_is_what_it_was_told() {
    let h = Host::current("x86_64", "linux", ".exe");
    assert_eq!((h.arch, h.os, h.exe_suffix), ("x86_64".into(), "linux".into(), ".exe".into()));
}
