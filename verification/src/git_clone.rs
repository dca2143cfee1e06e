//! The `git-clone` action: mirrors a git repository into a local working tree.

use crate::command;
use crate::command::CmdOutput;
use crate::digest;
use crate::digest::Hasher;
use crate::order;
use crate::paths;
use crate::steps;
use crate::steps::{Answer, Progress, ProgressView, Request, RequestView, Step, StepView};
use crate::text;
use crate::types::{ActionId, BuildError, BuildErrorView, BuildOutput, Sha256};
use vstd::prelude::*;

verus! {

/// Action that mirrors a remote git repository into a local working tree.
///
/// The first run clones; later runs fetch and reset hard. A literal `--`
/// precedes the user-supplied URL in every argument list.
#[derive(Debug)]
pub struct GitClone {
    /// Action identifier for the plan.
    pub id: ActionId,
    /// Remote git URL to clone from.
    pub repo_url: String,
    /// Local destination path.
    pub path: String,
    /// Ids of actions that must complete before this one runs.
    pub deps: Vec<ActionId>,
}

/// The preimage of the input hash: the URL and the remote commit.
pub open spec fn clone_preimage(url: Seq<char>, sha1: Seq<char>) -> Seq<u8> {
    text::utf8(url) + text::utf8(":"@) + text::utf8(sha1)
}

/// Hashes a URL and a commit. Mixing the URL keeps different mirrors of the
/// same commit apart.
pub fn hash_url_and_sha(url: &str, sha1: &str) -> (r: Sha256)
    ensures
        r@ == digest::sha256_of(clone_preimage(url@, sha1@)),
{
    let mut h = Hasher::new();
    h.update_text(url);
    h.update_text(":");
    h.update_text(sha1);
    assert(h@ =~= clone_preimage(url@, sha1@));
    h.finalize()
}

/// Different mirrors of one commit have different preimages.
pub proof fn mirrors_kept_apart(a: Seq<char>, b: Seq<char>, sha1: Seq<char>)
    requires
        clone_preimage(a, sha1) == clone_preimage(b, sha1),
    ensures
        a == b,
{
    let tail = text::utf8(":"@) + text::utf8(sha1);
    let x = clone_preimage(a, sha1);
    let y = clone_preimage(b, sha1);
    assert(x =~= text::utf8(a) + tail);
    assert(y =~= text::utf8(b) + tail);
    assert(text::utf8(a).len() == text::utf8(b).len());
    assert(text::utf8(a) =~= x.take(text::utf8(a).len() as int));
    assert(text::utf8(b) =~= y.take(text::utf8(b).len() as int));
    text::utf8_injective(a, b);
}

/// Different commits of one mirror have different preimages.
pub proof fn commits_kept_apart(url: Seq<char>, a: Seq<char>, b: Seq<char>)
    requires
        clone_preimage(url, a) == clone_preimage(url, b),
    ensures
        a == b,
{
    let x = text::utf8(url) + text::utf8(":"@);
    let none = Seq::<u8>::empty();
    assert(x + text::utf8(a) + none =~= clone_preimage(url, a));
    assert(x + text::utf8(b) + none =~= clone_preimage(url, b));
    text::middle_decides(x, text::utf8(a), text::utf8(b), none);
    text::utf8_injective(a, b);
}

/// What asking the remote for its HEAD comes to.
pub open spec fn remote_hash(url: Seq<char>, out: CmdOutput) -> Result<Seq<u8>, BuildErrorView> {
    let sha1 = text::first_word_of(text::utf8_lossy(out.stdout@));
    if !out.success {
        Err(
            BuildErrorView::UpstreamUnreachable(
                "git ls-remote "@ + url + ": "@ + command::trimmed_text(out.stderr@),
            ),
        )
    } else if sha1.len() == 0 {
        Err(BuildErrorView::UpstreamUnreachable("no HEAD"@))
    } else {
        Ok(digest::sha256_of(clone_preimage(url, sha1)))
    }
}

/// What a computed hash holds.
pub open spec fn hash_result(r: Result<Sha256, BuildError>) -> Result<Seq<u8>, BuildErrorView> {
    match r {
        Ok(h) => Ok(h@),
        Err(e) => Err(e@),
    }
}

/// What a build output holds: hash and captured text.
pub open spec fn output_result(r: Result<BuildOutput, BuildError>) -> Result<
    (Seq<u8>, Seq<char>),
    BuildErrorView,
> {
    match r {
        Ok(o) => Ok((o.output_hash@, o.stdout@)),
        Err(e) => Err(e@),
    }
}

/// What the checked-out HEAD comes to.
pub open spec fn head_output(out: CmdOutput) -> Result<(Seq<u8>, Seq<char>), BuildErrorView> {
    match command::status_error(out) {
        Some(e) => Err(e),
        None => {
            let sha1 = command::trimmed_text(out.stdout@);
            Ok((digest::sha256_of(text::utf8(sha1)), "HEAD "@ + sha1))
        },
    }
}

/// The arguments that ask the remote for its HEAD.
pub open spec fn ls_remote_arguments(url: Seq<char>) -> Seq<Seq<char>> {
    seq!["ls-remote"@, "--"@, url, "HEAD"@]
}

/// The arguments that name the commit checked out at a path.
pub open spec fn head_arguments(path: Seq<char>) -> Seq<Seq<char>> {
    seq!["-C"@, path, "rev-parse"@, "HEAD"@]
}

/// The arguments that bring the working tree up to date, call by call: a clone,
/// or a fetch and a hard reset where there is one already.
pub open spec fn update_commands(url: Seq<char>, path: Seq<char>, cloned: bool) -> Seq<
    Seq<Seq<char>>,
> {
    if cloned {
        seq![
            seq!["-C"@, path, "fetch"@, "origin"@, "--quiet"@],
            seq!["-C"@, path, "reset"@, "--hard"@, "FETCH_HEAD"@, "--quiet"@],
        ]
    } else {
        seq![seq!["clone"@, "--quiet"@, "--"@, url, path]]
    }
}

/// The next step towards the input hash: ask the remote, then hash.
pub open spec fn clone_hash_step(a: GitClone, answers: Seq<Answer>) -> StepView<Seq<u8>> {
    if answers.len() == 0 {
        StepView::Ask(RequestView::Run("git"@, ls_remote_arguments(a.repo_url@)))
    } else {
        match answers[0] {
            Answer::Output(Ok(out)) => StepView::Done(remote_hash(a.repo_url@, out)),
            Answer::Output(Err(e)) => steps::failed(e@),
            _ => steps::no_answer(),
        }
    }
}

/// The next step once the working tree can be touched, with the answers from
/// position `k` on: the commands that bring it up to date, then the commit.
pub open spec fn update_step(a: GitClone, cloned: bool, answers: Seq<Answer>, k: int) -> StepView<
    (Seq<u8>, Seq<char>),
> {
    let commands = update_commands(a.repo_url@, a.path@, cloned);
    let n = k + commands.len();
    match steps::commands_progress("git"@, commands, answers, k) {
        ProgressView::Ask(q) => StepView::Ask(q),
        ProgressView::Failed(e) => steps::failed(e),
        ProgressView::Over(_) => if answers.len() <= n {
            StepView::Ask(RequestView::Run("git"@, head_arguments(a.path@)))
        } else {
            match answers[n] {
                Answer::Output(Ok(out)) => StepView::Done(head_output(out)),
                Answer::Output(Err(e)) => steps::failed(e@),
                _ => steps::no_answer(),
            }
        },
    }
}

/// The directory that must exist before a clone: the one above the destination,
/// if there is any.
pub open spec fn clone_parent(path: Seq<char>) -> Option<Seq<char>> {
    match paths::parent_of(path) {
        Some(p) => if p.len() > 0 {
            Some(p)
        } else {
            None
        },
        None => None,
    }
}

/// The next step of the action: see whether there is a clone, make the directory
/// above it if not, and bring the working tree up to date.
pub open spec fn clone_run_step(a: GitClone, answers: Seq<Answer>) -> StepView<
    (Seq<u8>, Seq<char>),
> {
    if answers.len() == 0 {
        StepView::Ask(RequestView::IsDir(paths::joined_path(a.path@, ".git"@)))
    } else {
        match answers[0] {
            Answer::Flag(cloned) => if cloned {
                update_step(a, true, answers, 1)
            } else {
                match clone_parent(a.path@) {
                    None => update_step(a, false, answers, 1),
                    Some(p) => if answers.len() == 1 {
                        StepView::Ask(RequestView::CreateDirs(p))
                    } else {
                        match answers[1] {
                            Answer::Created(Ok(_)) => update_step(a, false, answers, 2),
                            Answer::Created(Err(e)) => steps::failed(
                                BuildErrorView::Io("create_dir_all: "@ + e@),
                            ),
                            _ => steps::no_answer(),
                        }
                    },
                }
            },
            _ => steps::no_answer(),
        }
    }
}

impl GitClone {
    /// Arguments of the `git` call that asks the remote for its HEAD.
    pub fn ls_remote_args(&self) -> (r: Vec<String>)
        ensures
            order::text_views(r@) == ls_remote_arguments(self.repo_url@),
    {
        let mut a = command::no_args();
        command::push_arg(&mut a, "ls-remote");
        command::push_arg(&mut a, "--");
        command::push_arg(&mut a, &self.repo_url);
        command::push_arg(&mut a, "HEAD");
        assert(order::text_views(a@) =~= seq!["ls-remote"@, "--"@, self.repo_url@, "HEAD"@]);
        a
    }

    /// The input hash, given what asking the remote for its HEAD printed. A
    /// remote without a HEAD is unreachable: hashing nothing would look up to
    /// date forever.
    pub fn input_hash(&self, out: &CmdOutput) -> (r: Result<Sha256, BuildError>)
        ensures
            hash_result(r) == remote_hash(self.repo_url@, *out),
    {
        if !out.success {
            let mut s = "git ls-remote ".to_owned();
            s.append(&self.repo_url);
            s.append(": ");
            s.append(&command::stream_text(&out.stderr));
            return Err(BuildError::UpstreamUnreachable(s));
        }
        let sha1 = text::first_word(&text::lossy(out.stdout.as_slice()));
        if sha1.as_str().is_empty() {
            return Err(BuildError::UpstreamUnreachable("no HEAD".to_owned()));
        }
        Ok(hash_url_and_sha(&self.repo_url, &sha1))
    }

    /// Arguments of the `git` calls that bring the working tree up to date, in
    /// order: a clone, or a fetch and a hard reset where there is one already.
    pub fn update_args(&self, cloned: bool) -> (r: Vec<Vec<String>>)
        ensures
            steps::command_views(r@) == update_commands(self.repo_url@, self.path@, cloned),
    {
        let mut r: Vec<Vec<String>> = Vec::new();
        if cloned {
            let mut fetch = command::no_args();
            command::push_arg(&mut fetch, "-C");
            command::push_arg(&mut fetch, &self.path);
            command::push_arg(&mut fetch, "fetch");
            command::push_arg(&mut fetch, "origin");
            command::push_arg(&mut fetch, "--quiet");
            assert(order::text_views(fetch@) =~= seq![
                "-C"@,
                self.path@,
                "fetch"@,
                "origin"@,
                "--quiet"@,
            ]);
            let mut reset = command::no_args();
            command::push_arg(&mut reset, "-C");
            command::push_arg(&mut reset, &self.path);
            command::push_arg(&mut reset, "reset");
            command::push_arg(&mut reset, "--hard");
            command::push_arg(&mut reset, "FETCH_HEAD");
            command::push_arg(&mut reset, "--quiet");
            assert(order::text_views(reset@) =~= seq![
                "-C"@,
                self.path@,
                "reset"@,
                "--hard"@,
                "FETCH_HEAD"@,
                "--quiet"@,
            ]);
            r.push(fetch);
            r.push(reset);
        } else {
            let mut clone = command::no_args();
            command::push_arg(&mut clone, "clone");
            command::push_arg(&mut clone, "--quiet");
            command::push_arg(&mut clone, "--");
            command::push_arg(&mut clone, &self.repo_url);
            command::push_arg(&mut clone, &self.path);
            assert(order::text_views(clone@) =~= seq![
                "clone"@,
                "--quiet"@,
                "--"@,
                self.repo_url@,
                self.path@,
            ]);
            r.push(clone);
        }
        assert(steps::command_views(r@) =~= update_commands(self.repo_url@, self.path@, cloned));
        r
    }

    /// Arguments of the `git` call that names the checked-out commit.
    pub fn head_args(&self) -> (r: Vec<String>)
        ensures
            order::text_views(r@) == head_arguments(self.path@),
    {
        let mut a = command::no_args();
        command::push_arg(&mut a, "-C");
        command::push_arg(&mut a, &self.path);
        command::push_arg(&mut a, "rev-parse");
        command::push_arg(&mut a, "HEAD");
        assert(order::text_views(a@) =~= seq!["-C"@, self.path@, "rev-parse"@, "HEAD"@]);
        a
    }

    /// The result of the action, given what naming the checked-out commit printed.
    pub fn output(&self, head: &CmdOutput) -> (r: Result<BuildOutput, BuildError>)
        ensures
            output_result(r) == head_output(*head),
    {
        match command::check_status(head) {
            Err(e) => {
                return Err(e);
            },
            Ok(_) => {},
        }
        let sha1 = command::stream_text(&head.stdout);
        let mut h = Hasher::new();
        h.update_text(&sha1);
        assert(h@ =~= text::utf8(sha1@));
        let mut stdout = "HEAD ".to_owned();
        stdout.append(&sha1);
        Ok(BuildOutput { output_hash: h.finalize(), stdout })
    }

    /// The next step towards the input hash, given the answers so far.
    pub fn hash_step(&self, answers: &Vec<Answer>) -> (r: Step<Sha256>)
        ensures
            steps::hash_view(r) == clone_hash_step(*self, answers@),
    {
        if answers.len() == 0 {
            return Step::Ask(steps::run("git", self.ls_remote_args()));
        }
        match &answers[0] {
            Answer::Output(Ok(out)) => Step::Done(self.input_hash(out)),
            Answer::Output(Err(e)) => Step::Done(Err(e.clone())),
            _ => Step::Done(Err(BuildError::Cancelled)),
        }
    }

    fn next_update(&self, cloned: bool, answers: &Vec<Answer>, from: usize) -> (r: Step<BuildOutput>)
        requires
            from <= answers@.len(),
            from <= 2,
        ensures
            steps::run_view(r) == update_step(*self, cloned, answers@, from as int),
    {
        let commands = self.update_args(cloned);
        assert(commands@.len() == steps::command_views(commands@).len());
        match steps::run_commands("git", &commands, answers, from) {
            Progress::Ask(q) => Step::Ask(q),
            Progress::Failed(e) => Step::Done(Err(e)),
            Progress::Over(_) => {
                let n: usize = from + commands.len();
                if answers.len() <= n {
                    return Step::Ask(steps::run("git", self.head_args()));
                }
                match &answers[n] {
                    Answer::Output(Ok(out)) => Step::Done(self.output(out)),
                    Answer::Output(Err(e)) => Step::Done(Err(e.clone())),
                    _ => Step::Done(Err(BuildError::Cancelled)),
                }
            },
        }
    }

    /// The next step of the action, given the answers so far.
    pub fn run_step(&self, answers: &Vec<Answer>) -> (r: Step<BuildOutput>)
        ensures
            steps::run_view(r) == clone_run_step(*self, answers@),
    {
        if answers.len() == 0 {
            return Step::Ask(Request::IsDir(paths::join_path(&self.path, ".git")));
        }
        match &answers[0] {
            Answer::Flag(cloned) => {
                if *cloned {
                    return self.next_update(true, answers, 1);
                }
                match paths::parent(&self.path) {
                    Some(p) if !p.as_str().is_empty() => {
                        if answers.len() == 1 {
                            return Step::Ask(Request::CreateDirs(p));
                        }
                        match &answers[1] {
                            Answer::Created(Ok(_)) => self.next_update(false, answers, 2),
                            Answer::Created(Err(e)) => {
                                let mut s = "create_dir_all: ".to_owned();
                                s.append(e);
                                Step::Done(Err(BuildError::Io(s)))
                            },
                            _ => Step::Done(Err(BuildError::Cancelled)),
                        }
                    },
                    _ => self.next_update(false, answers, 1),
                }
            },
            _ => Step::Done(Err(BuildError::Cancelled)),
        }
    }
}

} // verus!
