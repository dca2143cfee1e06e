//! How an action talks to the outside: it asks one question at a time, and what
//! it asks next depends on the answers so far.
//!
//! An action is a function from the answers it got to its next step. Whoever
//! drives it starts with no answers, performs each request, appends the answer
//! and asks again until the action is done.

use crate::command;
use crate::command::CmdOutput;
use crate::order;
use crate::types::{BuildError, BuildErrorView, BuildEvent, BuildOutput, ExecMode, Sha256};
use vstd::prelude::*;

verus! {

/// What is known of the machine.
#[derive(Debug)]
pub struct Host {
    /// Its architecture.
    pub arch: String,
    /// Its operating system.
    pub os: String,
    /// What the names of executables end in.
    pub exe_suffix: String,
    /// The user's home directory, if it is known.
    pub home: Option<String>,
}

impl Host {
    /// A machine, with the home directory of the current user.
    pub fn current(arch: &str, os: &str, exe_suffix: &str) -> (r: Host)
        ensures
            r.arch@ == arch@,
            r.os@ == os@,
            r.exe_suffix@ == exe_suffix@,
    {
        Host {
            arch: arch.to_owned(),
            os: os.to_owned(),
            exe_suffix: exe_suffix.to_owned(),
            home: crate::paths::home_dir(),
        }
    }
}

/// What an action wants from the outside.
#[derive(Debug, PartialEq, Eq)]
pub enum Request {
    /// Whether there is anything at a path.
    Exists(String),
    /// Whether there is a directory at a path.
    IsDir(String),
    /// Whether there is a file at a path.
    IsFile(String),
    /// A directory at a path, with all above it.
    CreateDirs(String),
    /// Where a path really lies.
    Canonicalize(String),
    /// The content of a file.
    Read(String),
    /// The content digest of a source tree.
    TreeDigest(String),
    /// The output of a program.
    Run {
        /// The program.
        program: String,
        /// Its arguments.
        args: Vec<String>,
    },
    /// The events of a nested stack, planned and run.
    SyncStack {
        /// The canonical path of its manifest.
        manifest: String,
        /// Its directory.
        dir: String,
        /// The manifests from the root stack down to its own.
        chain: Vec<String>,
        /// How the run treats failures.
        mode: ExecMode,
    },
}

/// What a [`Request`] holds.
#[verifier::ext_equal]
pub enum RequestView {
    /// See [`Request::Exists`].
    Exists(Seq<char>),
    /// See [`Request::IsDir`].
    IsDir(Seq<char>),
    /// See [`Request::IsFile`].
    IsFile(Seq<char>),
    /// See [`Request::CreateDirs`].
    CreateDirs(Seq<char>),
    /// See [`Request::Canonicalize`].
    Canonicalize(Seq<char>),
    /// See [`Request::Read`].
    Read(Seq<char>),
    /// See [`Request::TreeDigest`].
    TreeDigest(Seq<char>),
    /// See [`Request::Run`].
    Run(Seq<char>, Seq<Seq<char>>),
    /// See [`Request::SyncStack`].
    SyncStack {
        /// The manifest.
        manifest: Seq<char>,
        /// The directory.
        dir: Seq<char>,
        /// The manifests down to it.
        chain: Seq<Seq<char>>,
        /// How the run treats failures.
        mode: ExecMode,
    },
}

impl View for Request {
    type V = RequestView;

    open spec fn view(&self) -> RequestView {
        match *self {
            Request::Exists(p) => RequestView::Exists(p@),
            Request::IsDir(p) => RequestView::IsDir(p@),
            Request::IsFile(p) => RequestView::IsFile(p@),
            Request::CreateDirs(p) => RequestView::CreateDirs(p@),
            Request::Canonicalize(p) => RequestView::Canonicalize(p@),
            Request::Read(p) => RequestView::Read(p@),
            Request::TreeDigest(p) => RequestView::TreeDigest(p@),
            Request::Run { program, args } => RequestView::Run(
                program@,
                order::text_views(args@),
            ),
            Request::SyncStack { manifest, dir, chain, mode } => RequestView::SyncStack {
                manifest: manifest@,
                dir: dir@,
                chain: order::text_views(chain@),
                mode,
            },
        }
    }
}

/// What the outside has to say. An error carries its message.
#[derive(Debug)]
pub enum Answer {
    /// Yes or no.
    Flag(bool),
    /// Whether a directory could be made.
    Created(Result<(), String>),
    /// Where a path lies.
    Path(Result<String, String>),
    /// What a file holds.
    Bytes(Result<Vec<u8>, String>),
    /// The digest of a tree.
    Digest(Result<Sha256, BuildError>),
    /// What a program left behind, or why it did not come to an end.
    Output(Result<CmdOutput, BuildError>),
    /// What happened in a nested stack.
    Events(Result<Vec<BuildEvent>, BuildError>),
}

/// The next step of an action.
#[derive(Debug)]
pub enum Step<T> {
    /// It wants to know something.
    Ask(Request),
    /// It is done.
    Done(Result<T, BuildError>),
}

/// What a [`Step`] holds.
#[verifier::ext_equal]
pub enum StepView<T> {
    /// See [`Step::Ask`].
    Ask(RequestView),
    /// See [`Step::Done`].
    Done(Result<T, BuildErrorView>),
}

/// What a step towards a hash holds.
pub open spec fn hash_view(s: Step<Sha256>) -> StepView<Seq<u8>> {
    match s {
        Step::Ask(q) => StepView::Ask(q@),
        Step::Done(Ok(h)) => StepView::Done(Ok(h@)),
        Step::Done(Err(e)) => StepView::Done(Err(e@)),
    }
}

/// What a step towards an output holds: hash and captured text.
pub open spec fn run_view(s: Step<BuildOutput>) -> StepView<(Seq<u8>, Seq<char>)> {
    match s {
        Step::Ask(q) => StepView::Ask(q@),
        Step::Done(Ok(o)) => StepView::Done(Ok((o.output_hash@, o.stdout@))),
        Step::Done(Err(e)) => StepView::Done(Err(e@)),
    }
}

/// What a step towards a yes or no holds.
pub open spec fn flag_view(s: Step<bool>) -> StepView<bool> {
    match s {
        Step::Ask(q) => StepView::Ask(q@),
        Step::Done(Ok(b)) => StepView::Done(Ok(b)),
        Step::Done(Err(e)) => StepView::Done(Err(e@)),
    }
}

/// The end of an action whose question got an answer of another kind: it counts
/// as cancelled.
pub open spec fn no_answer<T>() -> StepView<T> {
    StepView::Done(Err(BuildErrorView::Cancelled))
}

/// The end of an action that failed.
pub open spec fn failed<T>(e: BuildErrorView) -> StepView<T> {
    StepView::Done(Err(e))
}

/// A request to run a program.
pub fn run(program: &str, args: Vec<String>) -> (r: Request)
    ensures
        r@ == RequestView::Run(program@, order::text_views(args@)),
{
    Request::Run { program: program.to_owned(), args }
}

/// How far a sequence of commands, or another part of an action, got.
#[derive(Debug)]
pub enum Progress<T> {
    /// It wants to know something.
    Ask(Request),
    /// It failed.
    Failed(BuildError),
    /// It is over.
    Over(T),
}

/// What a [`Progress`] holds.
#[verifier::ext_equal]
pub enum ProgressView<T> {
    /// See [`Progress::Ask`].
    Ask(RequestView),
    /// See [`Progress::Failed`].
    Failed(BuildErrorView),
    /// See [`Progress::Over`].
    Over(T),
}

/// The error that an answer to a command amounts to, if it does: it could not be
/// run to its end, or it left a non-zero exit status.
pub open spec fn command_error(a: Answer) -> Option<BuildErrorView> {
    match a {
        Answer::Output(Ok(out)) => command::status_error(out),
        Answer::Output(Err(e)) => Some(e@),
        _ => Some(BuildErrorView::Cancelled),
    }
}

/// The error that an answer to a command amounts to.
pub fn check_command(a: &Answer) -> (r: Result<(), BuildError>)
    ensures
        command::unit_error(r) == command_error(*a),
{
    match a {
        Answer::Output(Ok(out)) => command::check_status(out),
        Answer::Output(Err(e)) => Err(e.clone()),
        _ => Err(BuildError::Cancelled),
    }
}

/// How far commands of one program got that run one after the other, with the
/// answers from position `k` on. The first that fails ends them.
pub open spec fn commands_progress(
    program: Seq<char>,
    commands: Seq<Seq<Seq<char>>>,
    answers: Seq<Answer>,
    k: int,
) -> ProgressView<()>
    decreases commands.len(),
{
    if commands.len() == 0 {
        ProgressView::Over(())
    } else if k >= answers.len() {
        ProgressView::Ask(RequestView::Run(program, commands[0]))
    } else {
        match command_error(answers[k]) {
            Some(e) => ProgressView::Failed(e),
            None => commands_progress(program, commands.drop_first(), answers, k + 1),
        }
    }
}

/// The views of a list of argument lists.
pub open spec fn command_views(commands: Seq<Vec<String>>) -> Seq<Seq<Seq<char>>> {
    commands.map_values(|c: Vec<String>| order::text_views(c@))
}

/// What the progress of commands holds.
pub open spec fn unit_progress(p: Progress<()>) -> ProgressView<()> {
    match p {
        Progress::Ask(q) => ProgressView::Ask(q@),
        Progress::Failed(e) => ProgressView::Failed(e@),
        Progress::Over(_) => ProgressView::Over(()),
    }
}

/// How far commands of one program got that run one after the other, with the
/// answers from position `from` on.
pub fn run_commands(
    program: &str,
    commands: &Vec<Vec<String>>,
    answers: &Vec<Answer>,
    from: usize,
) -> (r: Progress<()>)
    requires
        from <= answers@.len(),
    ensures
        unit_progress(r) == commands_progress(
            program@,
            command_views(commands@),
            answers@,
            from as int,
        ),
{
    let ghost cv = command_views(commands@);
    let mut i: usize = 0;
    assert(cv.skip(0) =~= cv);
    while i < commands.len()
        invariant
            i <= commands.len(),
            from <= answers.len(),
            i <= answers.len() - from,
            cv == command_views(commands@),
            commands_progress(program@, cv, answers@, from as int) == commands_progress(
                program@,
                cv.skip(i as int),
                answers@,
                from + i,
            ),
        decreases commands.len() - i,
    {
        assert(cv.skip(i as int)[0] == order::text_views(commands@[i as int]@));
        if i >= answers.len() - from {
            return Progress::Ask(run(program, order::copy_texts(&commands[i])));
        }
        match check_command(&answers[from + i]) {
            Err(e) => {
                return Progress::Failed(e);
            },
            Ok(_) => {},
        }
        assert(cv.skip(i as int).drop_first() =~= cv.skip(i + 1));
        i = i + 1;
    }
    assert(cv.skip(i as int).len() == 0);
    Progress::Over(())
}

/// Once commands got an end, further answers change nothing.
pub proof fn commands_stay_over(
    program: Seq<char>,
    commands: Seq<Seq<Seq<char>>>,
    answers: Seq<Answer>,
    more: Answer,
    k: int,
)
    requires
        0 <= k <= answers.len(),
        !(commands_progress(program, commands, answers, k) is Ask),
    ensures
        commands_progress(program, commands, answers.push(more), k) == commands_progress(
            program,
            commands,
            answers,
            k,
        ),
    decreases commands.len(),
{
    if commands.len() > 0 && k < answers.len() {
        assert(answers.push(more)[k] == answers[k]);
        if command_error(answers[k]) is None {
            commands_stay_over(program, commands.drop_first(), answers, more, k + 1);
        }
    }
}

/// A failed command ends the sequence with its error.
pub proof fn commands_end_on_failure(
    program: Seq<char>,
    commands: Seq<Seq<Seq<char>>>,
    answers: Seq<Answer>,
    bad: Answer,
    k: int,
)
    requires
        0 <= k <= answers.len(),
        commands_progress(program, commands, answers, k) is Ask,
        command_error(bad) is Some,
    ensures
        commands_progress(program, commands, answers.push(bad), k) == ProgressView::<()>::Failed(
            command_error(bad)->0,
        ),
    decreases commands.len(),
{
    if k < answers.len() {
        assert(answers.push(bad)[k] == answers[k]);
        commands_end_on_failure(program, commands.drop_first(), answers, bad, k + 1);
    } else {
        assert(answers.push(bad)[k] == bad);
    }
}

/// Commands need no more answers than there are commands.
pub proof fn commands_end(
    program: Seq<char>,
    commands: Seq<Seq<Seq<char>>>,
    answers: Seq<Answer>,
    k: int,
)
    requires
        0 <= k,
        k + commands.len() <= answers.len(),
    ensures
        !(commands_progress(program, commands, answers, k) is Ask),
    decreases commands.len(),
{
    if commands.len() > 0 && command_error(answers[k]) is None {
        commands_end(program, commands.drop_first(), answers, k + 1);
    }
}

/// Commands that all succeeded have used one answer each.
pub proof fn commands_used(
    program: Seq<char>,
    commands: Seq<Seq<Seq<char>>>,
    answers: Seq<Answer>,
    k: int,
)
    requires
        0 <= k <= answers.len(),
        commands_progress(program, commands, answers, k) is Over,
    ensures
        k + commands.len() <= answers.len(),
    decreases commands.len(),
{
    if commands.len() > 0 {
        commands_used(program, commands.drop_first(), answers, k + 1);
    }
}

} // verus!
