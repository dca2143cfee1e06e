//! The `docker` action: builds an image from a node's checkout.
//!
//! The manifest has checked the Dockerfile and the context as text; that check
//! cannot see symbolic links. So both are resolved on disk before a build and
//! must stay inside the checkout.

use crate::command;
use crate::command::CmdOutput;
use crate::digest;
use crate::digest::Hasher;
use crate::git_clone;
use crate::order;
use crate::paths;
use crate::steps;
use crate::steps::{Answer, Progress, ProgressView, Request, RequestView, Step, StepView};
use crate::text;
use crate::types::{ActionId, BuildError, BuildErrorView, BuildOutput, Sha256};
use vstd::prelude::*;

verus! {

/// Action that builds a docker image.
#[derive(Debug)]
pub struct DockerBuild {
    /// Action identifier for the plan.
    pub id: ActionId,
    /// Image tag.
    pub tag: String,
    /// Dockerfile relative to the context; `Dockerfile` when absent.
    pub dockerfile: Option<String>,
    /// Build context relative to the checkout; the checkout itself when absent.
    pub context: Option<String>,
    /// The node's checkout, which neither of the two may leave.
    pub node_path: String,
    /// Ids of actions that must complete before this one runs.
    pub deps: Vec<ActionId>,
}

/// The context relative to the checkout.
pub open spec fn context_of(a: DockerBuild) -> Seq<char> {
    match a.context {
        Some(c) => c@,
        None => "."@,
    }
}

/// The Dockerfile relative to the checkout.
pub open spec fn dockerfile_of(a: DockerBuild) -> Seq<char> {
    paths::joined_path(
        context_of(a),
        match a.dockerfile {
            Some(d) => d@,
            None => "Dockerfile"@,
        },
    )
}

/// What resolving context and Dockerfile comes to: the first error, or both
/// canonical paths.
pub open spec fn both_paths(
    context: Result<Seq<char>, BuildErrorView>,
    dockerfile: Result<Seq<char>, BuildErrorView>,
) -> Result<(Seq<char>, Seq<char>), BuildErrorView> {
    match context {
        Err(e) => Err(e),
        Ok(c) => match dockerfile {
            Err(e) => Err(e),
            Ok(d) => Ok((c, d)),
        },
    }
}

/// What resolved paths hold.
pub open spec fn paths_result(r: Result<(String, String), BuildError>) -> Result<
    (Seq<char>, Seq<char>),
    BuildErrorView,
> {
    match r {
        Ok(p) => Ok((p.0@, p.1@)),
        Err(e) => Err(e@),
    }
}

/// How far resolving context and Dockerfile got, with the answers from position
/// `k` on: the checkout, then each of the two below it.
pub open spec fn paths_progress(a: DockerBuild, answers: Seq<Answer>, k: int) -> ProgressView<
    (Seq<char>, Seq<char>),
> {
    if answers.len() <= k {
        ProgressView::Ask(RequestView::Canonicalize(a.node_path@))
    } else {
        match answers[k] {
            Answer::Path(base) => {
                let b = paths::answer_view(base);
                match b {
                    Err(_) => ProgressView::Failed(
                        paths::containment(a.node_path@, b, context_of(a), b)->Err_0,
                    ),
                    Ok(dir) => if answers.len() == k + 1 {
                        ProgressView::Ask(
                            RequestView::Canonicalize(paths::joined_path(dir, context_of(a))),
                        )
                    } else {
                        match answers[k + 1] {
                            Answer::Path(context) => match paths::containment(
                                a.node_path@,
                                b,
                                context_of(a),
                                paths::answer_view(context),
                            ) {
                                Err(e) => ProgressView::Failed(e),
                                Ok(c) => if answers.len() == k + 2 {
                                    ProgressView::Ask(
                                        RequestView::Canonicalize(
                                            paths::joined_path(dir, dockerfile_of(a)),
                                        ),
                                    )
                                } else {
                                    match answers[k + 2] {
                                        Answer::Path(dockerfile) => match paths::containment(
                                            a.node_path@,
                                            b,
                                            dockerfile_of(a),
                                            paths::answer_view(dockerfile),
                                        ) {
                                            Err(e) => ProgressView::Failed(e),
                                            Ok(d) => ProgressView::Over((c, d)),
                                        },
                                        _ => ProgressView::Failed(BuildErrorView::Cancelled),
                                    }
                                },
                            },
                            _ => ProgressView::Failed(BuildErrorView::Cancelled),
                        }
                    },
                }
            },
            _ => ProgressView::Failed(BuildErrorView::Cancelled),
        }
    }
}

/// What the progress of resolving both paths holds.
pub open spec fn pair_progress(p: Progress<(String, String)>) -> ProgressView<
    (Seq<char>, Seq<char>),
> {
    match p {
        Progress::Ask(q) => ProgressView::Ask(q@),
        Progress::Failed(e) => ProgressView::Failed(e@),
        Progress::Over(p) => ProgressView::Over((p.0@, p.1@)),
    }
}

/// The next step once both paths are known, with the answers from position 4 on:
/// read the Dockerfile, ask for commit and engine, then hash.
pub open spec fn inputs_step(
    a: DockerBuild,
    context: Seq<char>,
    dockerfile: Seq<char>,
    answers: Seq<Answer>,
) -> StepView<Seq<u8>> {
    if answers.len() <= 4 {
        StepView::Ask(RequestView::Read(dockerfile))
    } else {
        match answers[4] {
            Answer::Bytes(Err(e)) => steps::failed(
                BuildErrorView::Io("read dockerfile "@ + dockerfile + ": "@ + e@),
            ),
            Answer::Bytes(Ok(bytes)) => if answers.len() == 5 {
                StepView::Ask(RequestView::Run("git"@, git_clone::head_arguments(context)))
            } else {
                match answers[5] {
                    Answer::Output(Err(e)) => steps::failed(e@),
                    Answer::Output(Ok(head)) => if answers.len() == 6 {
                        StepView::Ask(RequestView::Run("docker"@, seq!["--version"@]))
                    } else {
                        match answers[6] {
                            Answer::Output(Err(e)) => steps::failed(e@),
                            Answer::Output(Ok(version)) => StepView::Done(
                                docker_hash(a.tag@, dockerfile, Ok(bytes), head, version),
                            ),
                            _ => steps::no_answer(),
                        }
                    },
                    _ => steps::no_answer(),
                }
            },
            _ => steps::no_answer(),
        }
    }
}

/// The next step towards the input hash: see whether there is a checkout, and
/// read the build inputs if so.
pub open spec fn docker_hash_step(a: DockerBuild, answers: Seq<Answer>) -> StepView<Seq<u8>> {
    if answers.len() == 0 {
        StepView::Ask(RequestView::Exists(a.node_path@))
    } else {
        match answers[0] {
            Answer::Flag(found) => if !found {
                StepView::Done(Ok(digest::sha256_of(pre_clone_preimage(a.tag@))))
            } else {
                match paths_progress(a, answers, 1) {
                    ProgressView::Ask(q) => StepView::Ask(q),
                    ProgressView::Failed(e) => steps::failed(e),
                    ProgressView::Over(p) => inputs_step(a, p.0, p.1, answers),
                }
            },
            _ => steps::no_answer(),
        }
    }
}

/// The arguments of the build.
pub open spec fn build_arguments(tag: Seq<char>, context: Seq<char>, dockerfile: Seq<char>) -> Seq<
    Seq<char>,
> {
    seq!["build"@, "-f"@, dockerfile, "-t"@, tag, "--"@, context]
}

/// The arguments that ask for the id of an image.
pub open spec fn inspect_arguments(tag: Seq<char>) -> Seq<Seq<char>> {
    seq!["image"@, "inspect"@, "--format"@, "{{.Id}}"@, "--"@, tag]
}

/// The next step once both paths are known, with the answers from position 3 on:
/// build, then ask for the image.
pub open spec fn build_step(
    a: DockerBuild,
    context: Seq<char>,
    dockerfile: Seq<char>,
    answers: Seq<Answer>,
) -> StepView<(Seq<u8>, Seq<char>)> {
    let commands = seq![build_arguments(a.tag@, context, dockerfile)];
    match steps::commands_progress("docker"@, commands, answers, 3) {
        ProgressView::Ask(q) => StepView::Ask(q),
        ProgressView::Failed(e) => steps::failed(e),
        ProgressView::Over(_) => if answers.len() <= 4 {
            StepView::Ask(RequestView::Run("docker"@, inspect_arguments(a.tag@)))
        } else {
            match answers[4] {
                Answer::Output(Ok(out)) => StepView::Done(image_output(a.tag@, out)),
                Answer::Output(Err(e)) => steps::failed(e@),
                _ => steps::no_answer(),
            }
        },
    }
}

/// The next step of the action: resolve both paths, build, ask for the image. The
/// checkout must exist by now.
pub open spec fn docker_run_step(a: DockerBuild, answers: Seq<Answer>) -> StepView<
    (Seq<u8>, Seq<char>),
> {
    match paths_progress(a, answers, 0) {
        ProgressView::Ask(q) => StepView::Ask(q),
        ProgressView::Failed(e) => steps::failed(e),
        ProgressView::Over(p) => build_step(a, p.0, p.1, answers),
    }
}

/// The preimage of the input hash while there is no checkout yet.
pub open spec fn pre_clone_preimage(tag: Seq<char>) -> Seq<u8> {
    text::utf8("docker:tag:"@) + text::utf8(tag) + text::utf8(":pre-clone"@)
}

/// What a checkout adds to a preimage: the commit that git names, or a marker
/// where it is no git worktree.
pub open spec fn checkout_bytes(head: CmdOutput) -> Seq<u8> {
    text::utf8(":checkout:"@) + (if head.success {
        head.stdout@
    } else {
        text::utf8("no-git"@)
    })
}

/// Adds the state of a checkout to a preimage.
pub fn update_checkout(h: &mut Hasher, head: &CmdOutput)
    ensures
        final(h)@ == old(h)@ + checkout_bytes(*head),
{
    h.update_text(":checkout:");
    if head.success {
        h.update(head.stdout.as_slice());
    } else {
        h.update_text("no-git");
    }
    assert(h@ =~= old(h)@ + checkout_bytes(*head));
}

/// The preimage of the input hash: tag, Dockerfile, checkout and engine.
pub open spec fn docker_preimage(
    tag: Seq<char>,
    dockerfile: Seq<u8>,
    head: CmdOutput,
    version: Seq<u8>,
) -> Seq<u8> {
    text::utf8("docker:tag:"@) + text::utf8(tag) + text::utf8(":dockerfile:"@) + dockerfile
        + checkout_bytes(head) + text::utf8(":docker:"@) + version
}

/// What reading the build inputs comes to.
pub open spec fn docker_hash(
    tag: Seq<char>,
    path: Seq<char>,
    content: Result<Vec<u8>, String>,
    head: CmdOutput,
    version: CmdOutput,
) -> Result<Seq<u8>, BuildErrorView> {
    match content {
        Err(e) => Err(BuildErrorView::Io("read dockerfile "@ + path + ": "@ + e@)),
        Ok(bytes) => if version.success {
            Ok(digest::sha256_of(docker_preimage(tag, bytes@, head, version.stdout@)))
        } else {
            Err(
                BuildErrorView::UpstreamUnreachable(
                    "docker --version failed — is the docker CLI installed and on PATH?"@,
                ),
            )
        },
    }
}

/// What inspecting the built image comes to.
pub open spec fn image_output(tag: Seq<char>, inspect: CmdOutput) -> Result<
    (Seq<u8>, Seq<char>),
    BuildErrorView,
> {
    let image = command::trimmed_text(inspect.stdout@);
    if !inspect.success {
        Err(
            BuildErrorView::Io(
                "docker image inspect "@ + tag + " failed after build: "@ + command::trimmed_text(
                    inspect.stderr@,
                ),
            ),
        )
    } else if image.len() == 0 {
        Err(BuildErrorView::Io("docker image inspect "@ + tag + " returned an empty id"@))
    } else {
        Ok((digest::sha256_of(text::utf8(image)), "built "@ + tag + " -> "@ + image))
    }
}

impl DockerBuild {
    /// The context relative to the checkout.
    pub fn context_rel(&self) -> (r: String)
        ensures
            r@ == context_of(*self),
    {
        match &self.context {
            Some(c) => c.clone(),
            None => ".".to_owned(),
        }
    }

    /// The Dockerfile relative to the checkout.
    pub fn dockerfile_rel(&self) -> (r: String)
        ensures
            r@ == dockerfile_of(*self),
    {
        let context = self.context_rel();
        match &self.dockerfile {
            Some(d) => paths::join_path(&context, d),
            None => paths::join_path(&context, "Dockerfile"),
        }
    }

    /// The canonical context and Dockerfile, both inside the checkout.
    ///
    /// The answers are what canonicalizing the checkout gave, and the canonical
    /// checkout joined with [`Self::context_rel`] and [`Self::dockerfile_rel`].
    pub fn resolved_paths(
        &self,
        base_canon: &Result<String, String>,
        context_canon: &Result<String, String>,
        dockerfile_canon: &Result<String, String>,
    ) -> (r: Result<(String, String), BuildError>)
        ensures
            paths_result(r) == both_paths(
                paths::containment(
                    self.node_path@,
                    paths::answer_view(*base_canon),
                    context_of(*self),
                    paths::answer_view(*context_canon),
                ),
                paths::containment(
                    self.node_path@,
                    paths::answer_view(*base_canon),
                    dockerfile_of(*self),
                    paths::answer_view(*dockerfile_canon),
                ),
            ),
            r matches Ok(p) ==> base_canon matches Ok(b) && paths::within(p.0@, b@)
                && paths::within(p.1@, b@),
    {
        let context = match paths::contain_within(
            &self.node_path,
            base_canon,
            &self.context_rel(),
            context_canon,
        ) {
            Ok(c) => c,
            Err(e) => {
                return Err(e);
            },
        };
        match paths::contain_within(
            &self.node_path,
            base_canon,
            &self.dockerfile_rel(),
            dockerfile_canon,
        ) {
            Ok(d) => Ok((context, d)),
            Err(e) => Err(e),
        }
    }

    /// The input hash while the checkout does not exist: a sibling action may
    /// still have to make it, and the next run hashes what is in it.
    pub fn pre_clone_hash(&self) -> (r: Sha256)
        ensures
            r@ == digest::sha256_of(pre_clone_preimage(self.tag@)),
    {
        let mut h = Hasher::new();
        h.update_text("docker:tag:");
        h.update_text(&self.tag);
        h.update_text(":pre-clone");
        assert(h@ =~= pre_clone_preimage(self.tag@));
        h.finalize()
    }

    /// Arguments of the `git` call that names the commit in the context.
    pub fn head_args(&self, context: &str) -> (r: Vec<String>)
        ensures
            order::text_views(r@) == git_clone::head_arguments(context@),
    {
        let mut a = command::no_args();
        command::push_arg(&mut a, "-C");
        command::push_arg(&mut a, context);
        command::push_arg(&mut a, "rev-parse");
        command::push_arg(&mut a, "HEAD");
        assert(order::text_views(a@) =~= seq!["-C"@, context@, "rev-parse"@, "HEAD"@]);
        a
    }

    /// The input hash, given what reading the Dockerfile at `path` gave, what
    /// git printed for the context's commit, and what `docker --version` printed.
    pub fn input_hash(
        &self,
        path: &str,
        content: &Result<Vec<u8>, String>,
        head: &CmdOutput,
        version: &CmdOutput,
    ) -> (r: Result<Sha256, BuildError>)
        ensures
            git_clone::hash_result(r) == docker_hash(self.tag@, path@, *content, *head, *version),
    {
        let bytes = match content {
            Ok(b) => b,
            Err(e) => {
                let mut s = "read dockerfile ".to_owned();
                s.append(path);
                s.append(": ");
                s.append(e);
                return Err(BuildError::Io(s));
            },
        };
        if !version.success {
            return Err(
                BuildError::UpstreamUnreachable(
                    "docker --version failed — is the docker CLI installed and on PATH?".to_owned(),
                ),
            );
        }
        let mut h = Hasher::new();
        h.update_text("docker:tag:");
        h.update_text(&self.tag);
        h.update_text(":dockerfile:");
        h.update(bytes.as_slice());
        update_checkout(&mut h, head);
        h.update_text(":docker:");
        h.update(version.stdout.as_slice());
        assert(h@ =~= docker_preimage(self.tag@, bytes@, *head, version.stdout@));
        Ok(h.finalize())
    }

    /// Arguments of the `docker` call that builds the image.
    pub fn build_args(&self, context: &str, dockerfile: &str) -> (r: Vec<String>)
        ensures
            order::text_views(r@) == build_arguments(self.tag@, context@, dockerfile@),
    {
        let mut a = command::no_args();
        command::push_arg(&mut a, "build");
        command::push_arg(&mut a, "-f");
        command::push_arg(&mut a, dockerfile);
        command::push_arg(&mut a, "-t");
        command::push_arg(&mut a, &self.tag);
        command::push_arg(&mut a, "--");
        command::push_arg(&mut a, context);
        assert(order::text_views(a@) =~= build_arguments(self.tag@, context@, dockerfile@));
        a
    }

    /// Arguments of the `docker` call that names the built image.
    pub fn inspect_args(&self) -> (r: Vec<String>)
        ensures
            order::text_views(r@) == inspect_arguments(self.tag@),
    {
        let mut a = command::no_args();
        command::push_arg(&mut a, "image");
        command::push_arg(&mut a, "inspect");
        command::push_arg(&mut a, "--format");
        command::push_arg(&mut a, "{{.Id}}");
        command::push_arg(&mut a, "--");
        command::push_arg(&mut a, &self.tag);
        assert(order::text_views(a@) =~= inspect_arguments(self.tag@));
        a
    }

    /// The result of the action, given what naming the built image printed. The
    /// hash is that of the image's id, so a rebuild of the same image keeps it.
    pub fn output(&self, inspect: &CmdOutput) -> (r: Result<BuildOutput, BuildError>)
        ensures
            git_clone::output_result(r) == image_output(self.tag@, *inspect),
    {
        let image = command::stream_text(&inspect.stdout);
        if !inspect.success {
            let mut s = "docker image inspect ".to_owned();
            s.append(&self.tag);
            s.append(" failed after build: ");
            s.append(&command::stream_text(&inspect.stderr));
            return Err(BuildError::Io(s));
        }
        if image.as_str().is_empty() {
            let mut s = "docker image inspect ".to_owned();
            s.append(&self.tag);
            s.append(" returned an empty id");
            return Err(BuildError::Io(s));
        }
        let mut h = Hasher::new();
        h.update_text(&image);
        assert(h@ =~= text::utf8(image@));
        let mut stdout = "built ".to_owned();
        stdout.append(&self.tag);
        stdout.append(" -> ");
        stdout.append(&image);
        Ok(BuildOutput { output_hash: h.finalize(), stdout })
    }

    fn next_paths(&self, answers: &Vec<Answer>, k: usize) -> (r: Progress<(String, String)>)
        requires
            k <= 1,
        ensures
            pair_progress(r) == paths_progress(*self, answers@, k as int),
            r is Over ==> answers@.len() >= k + 3,
    {
        if answers.len() <= k {
            return Progress::Ask(Request::Canonicalize(self.node_path.clone()));
        }
        let base = match &answers[k] {
            Answer::Path(base) => base,
            _ => {
                return Progress::Failed(BuildError::Cancelled);
            },
        };
        let dir = match base {
            Ok(dir) => dir,
            Err(_) => {
                return match paths::contain_within(
                    &self.node_path,
                    base,
                    &self.context_rel(),
                    base,
                ) {
                    Err(e) => Progress::Failed(e),
                    Ok(_) => Progress::Failed(BuildError::Cancelled),
                };
            },
        };
        if answers.len() == k + 1 {
            return Progress::Ask(
                Request::Canonicalize(paths::join_path(dir, &self.context_rel())),
            );
        }
        let context = match &answers[k + 1] {
            Answer::Path(c) => match paths::contain_within(
                &self.node_path,
                base,
                &self.context_rel(),
                c,
            ) {
                Ok(c) => c,
                Err(e) => {
                    return Progress::Failed(e);
                },
            },
            _ => {
                return Progress::Failed(BuildError::Cancelled);
            },
        };
        if answers.len() == k + 2 {
            return Progress::Ask(
                Request::Canonicalize(paths::join_path(dir, &self.dockerfile_rel())),
            );
        }
        match &answers[k + 2] {
            Answer::Path(d) => match paths::contain_within(
                &self.node_path,
                base,
                &self.dockerfile_rel(),
                d,
            ) {
                Ok(d) => Progress::Over((context, d)),
                Err(e) => Progress::Failed(e),
            },
            _ => Progress::Failed(BuildError::Cancelled),
        }
    }

    fn next_input(&self, context: &str, dockerfile: &str, answers: &Vec<Answer>) -> (r: Step<
        Sha256,
    >)
        ensures
            steps::hash_view(r) == inputs_step(*self, context@, dockerfile@, answers@),
    {
        if answers.len() <= 4 {
            return Step::Ask(Request::Read(dockerfile.to_owned()));
        }
        let content = match &answers[4] {
            Answer::Bytes(content) => content,
            _ => {
                return Step::Done(Err(BuildError::Cancelled));
            },
        };
        match content {
            Err(e) => {
                let mut s = "read dockerfile ".to_owned();
                s.append(dockerfile);
                s.append(": ");
                s.append(e);
                return Step::Done(Err(BuildError::Io(s)));
            },
            Ok(_) => {},
        }
        if answers.len() == 5 {
            return Step::Ask(steps::run("git", self.head_args(context)));
        }
        let head = match &answers[5] {
            Answer::Output(Ok(head)) => head,
            Answer::Output(Err(e)) => {
                return Step::Done(Err(e.clone()));
            },
            _ => {
                return Step::Done(Err(BuildError::Cancelled));
            },
        };
        if answers.len() == 6 {
            let mut args = command::no_args();
            command::push_arg(&mut args, "--version");
            assert(order::text_views(args@) =~= seq!["--version"@]);
            return Step::Ask(steps::run("docker", args));
        }
        match &answers[6] {
            Answer::Output(Ok(version)) => Step::Done(
                self.input_hash(dockerfile, content, head, version),
            ),
            Answer::Output(Err(e)) => Step::Done(Err(e.clone())),
            _ => Step::Done(Err(BuildError::Cancelled)),
        }
    }

    /// The next step towards the input hash, given the answers so far.
    pub fn hash_step(&self, answers: &Vec<Answer>) -> (r: Step<Sha256>)
        ensures
            steps::hash_view(r) == docker_hash_step(*self, answers@),
    {
        if answers.len() == 0 {
            return Step::Ask(Request::Exists(self.node_path.clone()));
        }
        match &answers[0] {
            Answer::Flag(found) => {
                if !*found {
                    return Step::Done(Ok(self.pre_clone_hash()));
                }
                match self.next_paths(answers, 1) {
                    Progress::Ask(q) => Step::Ask(q),
                    Progress::Failed(e) => Step::Done(Err(e)),
                    Progress::Over(p) => self.next_input(&p.0, &p.1, answers),
                }
            },
            _ => Step::Done(Err(BuildError::Cancelled)),
        }
    }

    /// The next step of the action, given the answers so far.
    pub fn run_step(&self, answers: &Vec<Answer>) -> (r: Step<BuildOutput>)
        ensures
            steps::run_view(r) == docker_run_step(*self, answers@),
    {
        let p = match self.next_paths(answers, 0) {
            Progress::Ask(q) => {
                return Step::Ask(q);
            },
            Progress::Failed(e) => {
                return Step::Done(Err(e));
            },
            Progress::Over(p) => p,
        };
        let mut commands: Vec<Vec<String>> = Vec::new();
        commands.push(self.build_args(&p.0, &p.1));
        assert(steps::command_views(commands@) =~= seq![
            build_arguments(self.tag@, p.0@, p.1@),
        ]);
        match steps::run_commands("docker", &commands, answers, 3) {
            Progress::Ask(q) => Step::Ask(q),
            Progress::Failed(e) => Step::Done(Err(e)),
            Progress::Over(_) => {
                if answers.len() <= 4 {
                    return Step::Ask(steps::run("docker", self.inspect_args()));
                }
                match &answers[4] {
                    Answer::Output(Ok(out)) => Step::Done(self.output(out)),
                    Answer::Output(Err(e)) => Step::Done(Err(e.clone())),
                    _ => Step::Done(Err(BuildError::Cancelled)),
                }
            },
        }
    }
}

/// A checkout that does not exist yet never hashes like one that does: the
/// preimages differ.
pub proof fn pre_clone_never_collides(
    tag: Seq<char>,
    dockerfile: Seq<u8>,
    head: CmdOutput,
    version: Seq<u8>,
)
    ensures
        pre_clone_preimage(tag) != docker_preimage(tag, dockerfile, head, version),
{
    reveal_strlit(":pre-clone");
    reveal_strlit(":dockerfile:");
    vstd::utf8::is_ascii_chars_encode_utf8(":pre-clone"@);
    vstd::utf8::is_ascii_chars_encode_utf8(":dockerfile:"@);
    let k = (text::utf8("docker:tag:"@) + text::utf8(tag)).len() as int;
    let a = pre_clone_preimage(tag);
    let b = docker_preimage(tag, dockerfile, head, version);
    assert(a[k + 1] == text::utf8(":pre-clone"@)[1]);
    assert(b[k + 1] == text::utf8(":dockerfile:"@)[1]);
}

/// Builds that differ in exactly one of tag, Dockerfile, checkout and engine
/// have different preimages: where three of them agree, so does the fourth.
pub proof fn changes_are_noticed(
    tag: (Seq<char>, Seq<char>),
    dockerfile: (Seq<u8>, Seq<u8>),
    head: (CmdOutput, CmdOutput),
    version: (Seq<u8>, Seq<u8>),
)
    requires
        docker_preimage(tag.0, dockerfile.0, head.0, version.0) == docker_preimage(
            tag.1,
            dockerfile.1,
            head.1,
            version.1,
        ),
    ensures
        ({
            let same_checkout = checkout_bytes(head.0) == checkout_bytes(head.1);
            &&& dockerfile.0 == dockerfile.1 && same_checkout && version.0 == version.1 ==> tag.0
                == tag.1
            &&& tag.0 == tag.1 && same_checkout && version.0 == version.1 ==> dockerfile.0
                == dockerfile.1
            &&& tag.0 == tag.1 && dockerfile.0 == dockerfile.1 && version.0 == version.1
                ==> same_checkout
            &&& tag.0 == tag.1 && dockerfile.0 == dockerfile.1 && same_checkout ==> version.0
                == version.1
        }),
{
    let t = text::utf8("docker:tag:"@);
    let f = text::utf8(":dockerfile:"@);
    let d = text::utf8(":docker:"@);
    let none = Seq::<u8>::empty();
    let c0 = checkout_bytes(head.0);
    let c1 = checkout_bytes(head.1);
    let u0 = text::utf8(tag.0);
    let u1 = text::utf8(tag.1);
    regroup(t, u0, f, dockerfile.0, c0, d, version.0);
    regroup(t, u1, f, dockerfile.1, c1, d, version.1);
    if dockerfile.0 == dockerfile.1 && c0 == c1 && version.0 == version.1 {
        text::middle_decides(t, u0, u1, f + dockerfile.0 + c0 + d + version.0);
        text::utf8_injective(tag.0, tag.1);
    }
    if tag.0 == tag.1 && c0 == c1 && version.0 == version.1 {
        text::middle_decides(t + u0 + f, dockerfile.0, dockerfile.1, c0 + d + version.0);
    }
    if tag.0 == tag.1 && dockerfile.0 == dockerfile.1 && version.0 == version.1 {
        text::middle_decides(t + u0 + f + dockerfile.0, c0, c1, d + version.0);
    }
    if tag.0 == tag.1 && dockerfile.0 == dockerfile.1 && c0 == c1 {
        let x = t + u0 + f + dockerfile.0 + c0 + d;
        assert(x + version.0 + none =~= x + version.0);
        assert(x + version.1 + none =~= x + version.1);
        text::middle_decides(x, version.0, version.1, none);
    }
}

/// Sequences one after the other, grouped around the second, fourth and fifth.
proof fn regroup(
    t: Seq<u8>,
    u: Seq<u8>,
    f: Seq<u8>,
    k: Seq<u8>,
    c: Seq<u8>,
    d: Seq<u8>,
    v: Seq<u8>,
)
    ensures
        t + u + f + k + c + d + v == t + u + (f + k + c + d + v),
        t + u + f + k + c + d + v == t + u + f + k + (c + d + v),
        t + u + f + k + c + d + v == t + u + f + k + c + (d + v),
{
    let x = t + u + f + k + c;
    assert(x + d + v =~= x + (d + v));
    let y = t + u + f + k;
    assert(y + c + (d + v) =~= y + (c + d + v));
    let z = t + u;
    assert(z + f + k =~= z + (f + k));
    assert(z + (f + k) + (c + d + v) =~= z + (f + k + (c + d + v)));
    assert(f + k + (c + d + v) =~= f + k + c + d + v);
}

} // verus!
