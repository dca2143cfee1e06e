use repolith::command::CmdOutput;
use repolith::docker::DockerBuild;
use repolith::types::{ActionId, BuildError};

fn out(success: bool, stdout: &str, stderr: &str) -> CmdOutput {
    CmdOutput {
        success,
        code: Some(i32::from(!success)),
        stdout: stdout.as_bytes().to_vec(),
        stderr: stderr.as_bytes().to_vec(),
    }
}

fn action(dockerfile: Option<&str>, context: Option<&str>) -> DockerBuild {
    DockerBuild {
        id: ActionId("app::docker::0".to_string()),
        tag: "app:latest".to_string(),
        dockerfile: dockerfile.map(str::to_string),
        context: context.map(str::to_string),
        node_path: "app".to_string(),
        deps: vec![],
    }
}

#[test]
fn the_dockerfile_is_relative_to_the_context() {
    let a = action(None, None);
    assert_eq!(a.context_rel(), ".");
    assert_eq!(a.dockerfile_rel(), "./Dockerfile");
    let a = action(Some("deep/Dockerfile"), Some("build"));
    assert_eq!(a.context_rel(), "build");
    assert_eq!(a.dockerfile_rel(), "build/deep/Dockerfile");
}

#[test]
fn both_paths_must_stay_inside_the_checkout() {
    let a = action(None, Some("build"));
    let base = Ok("/ws/app".to_string());
    let inside = |p: &str| Ok(format!("/ws/app/{p}"));
    assert!(matches!(
        a.resolved_paths(&base, &inside("build"), &inside("build/Dockerfile")),
        Ok((c, d)) if c == "/ws/app/build" && d == "/ws/app/build/Dockerfile"
    ));
    let err = a
        .resolved_paths(&base, &Ok("/etc".to_string()), &inside("build/Dockerfile"))
        .unwrap_err();
    assert!(err.to_string().contains("escapes"), "{}", err.to_string());
    let err = a
        .resolved_paths(&base, &inside("build"), &Ok("/ws/application/Dockerfile".to_string()))
        .unwrap_err();
    assert!(err.to_string().contains("escapes"), "{}", err.to_string());
    let err = a
        .resolved_paths(&base, &inside("build"), &Err("No such file".to_string()))
        .unwrap_err();
    assert_eq!(
        err.to_string(),
        "IO error: canonicalize /ws/app/build/Dockerfile: No such file"
    );
}

#[test]
fn every_build_input_is_in_the_hash() {
    let a = action(None, None);
    let h = |df: &str, head: &CmdOutput, v: &str| {
        a.input_hash("/d", &Ok(df.as_bytes().to_vec()), head, &out(true, v, "")).unwrap()
    };
    let head = out(true, "abc\n", "");
    let base = h("FROM x", &head, "Docker 1");
    assert_eq!(base, h("FROM x", &head, "Docker 1"));
    assert_ne!(base, h("FROM y", &head, "Docker 1"));
    assert_ne!(base, h("FROM x", &out(true, "def\n", ""), "Docker 1"));
    assert_ne!(base, h("FROM x", &out(false, "abc\n", ""), "Docker 1"));
    assert_ne!(base, h("FROM x", &head, "Docker 2"));
    assert_ne!(base, a.pre_clone_hash());
    let mut other = action(None, None);
    other.tag = "other".to_string();
    assert_ne!(other.pre_clone_hash(), a.pre_clone_hash());
}

#[test]
fn a_missing_engine_or_dockerfile_is_an_error() {
    let a = action(None, None);
    let ok = out(true, "x", "");
    match a.input_hash("/d", &Err("gone".to_string()), &ok, &ok) {
        Err(BuildError::Io(m)) => assert_eq!(m, "read dockerfile /d: gone"),
        other => panic!("expected Io, got {other:?}"),
    }
    match a.input_hash("/d", &Ok(vec![]), &ok, &out(false, "", "")) {
        Err(BuildError::UpstreamUnreachable(m)) => assert_eq!(
            m,
            "docker --version failed — is the docker CLI installed and on PATH?"
        ),
        other => panic!("expected UpstreamUnreachable, got {other:?}"),
    }
}

#[test]
fn the_image_id_is_the_output() {
    let a = action(None, None);
    let built = a.output(&out(true, "sha256:abc\n", "")).unwrap();
    assert_eq!(built.stdout, "built app:latest -> sha256:abc");
    match a.output(&out(false, "", " no such image\n")) {
        Err(BuildError::Io(m)) => assert_eq!(
            m,
            "docker image inspect app:latest failed after build: no such image"
        ),
        other => panic!("expected Io, got {other:?}"),
    }
    match a.output(&out(true, " \n", "")) {
        Err(BuildError::Io(m)) => {
            assert_eq!(m, "docker image inspect app:latest returned an empty id");
        }
        other => panic!("expected Io, got {other:?}"),
    }
}

#[test]
fn the_argument_lists_end_flags_before_the_context() {
    let a = action(None, None);
    assert_eq!(
        a.build_args("/ctx", "/ctx/Dockerfile"),
        vec!["build", "-f", "/ctx/Dockerfile", "-t", "app:latest", "--", "/ctx"]
    );
    assert_eq!(
        a.inspect_args(),
        vec!["image", "inspect", "--format", "{{.Id}}", "--", "app:latest"]
    );
    assert_eq!(a.head_args("/ctx"), vec!["-C", "/ctx", "rev-parse", "HEAD"]);
}
