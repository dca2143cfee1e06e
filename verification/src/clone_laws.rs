//! What a `git-clone` action does with what it was given.

use crate::command;
use crate::command::CmdOutput;
use crate::digest;
use crate::git_clone;
use crate::git_clone::GitClone;
use crate::path_laws;
use crate::paths;
use crate::steps;
use crate::steps::{Answer, RequestView, StepView};
use crate::text;
use crate::types::{BuildError, BuildErrorView};
use vstd::prelude::*;

verus! {

/// A program failed exactly if it did not end well; the error holds its exit code,
/// or -1 where there is none, and what it printed as errors without the white space
/// around it.
pub proof fn failure_keeps_code_and_message(out: CmdOutput)
    ensures
        command::status_error(out) is None <==> out.success,
        command::status_error(out) matches Some(e) ==> match e {
            BuildErrorView::CommandFailed { exit_code, stderr } => {
                &&& out.code matches Some(c) ==> exit_code == c
                &&& out.code is None ==> exit_code == -1
                &&& stderr == text::trimmed(text::utf8_lossy(out.stderr@))
            },
            _ => false,
        },
{
}

/// A command went wrong exactly if it did not come to an end or did not end well, with
/// that error. What is no answer to a command counts as cancelled.
pub proof fn commands_fail_with_their_error(out: CmdOutput, e: BuildError, found: bool)
    ensures
        steps::command_error(Answer::Output(Ok(out))) is None <==> out.success,
        !out.success ==> steps::command_error(Answer::Output(Ok(out))) == command::status_error(
            out,
        ),
        steps::command_error(Answer::Output(Err(e))) == Some(e@),
        steps::command_error(Answer::Flag(found)) == Some(BuildErrorView::Cancelled),
{
}

/// The remote is asked for its HEAD under the URL of the action, behind the end of
/// the options. The hash is over that URL and the first word that was printed.
pub proof fn hash_is_over_the_remote(a: GitClone, out: CmdOutput, e: BuildError)
    ensures
        ({
            let step = |answers: Seq<Answer>| git_clone::clone_hash_step(a, answers);
            let o = Answer::Output(Ok(out));
            let commit = text::first_word_of(text::utf8_lossy(out.stdout@));
            &&& step(seq![]) == StepView::<Seq<u8>>::Ask(
                RequestView::Run("git"@, seq!["ls-remote"@, "--"@, a.repo_url@, "HEAD"@]),
            )
            &&& out.success && commit.len() > 0 ==> step(seq![o]) == StepView::<Seq<u8>>::Done(
                Ok(
                    digest::sha256_of(
                        text::utf8(a.repo_url@) + text::utf8(":"@) + text::utf8(commit),
                    ),
                ),
            )
            &&& out.success && commit.len() == 0 ==> step(seq![o]) == StepView::<Seq<u8>>::Done(
                Err(BuildErrorView::UpstreamUnreachable("no HEAD"@)),
            )
            &&& !out.success ==> match step(seq![o]) {
                StepView::Done(Err(BuildErrorView::UpstreamUnreachable(t))) => text::occurs_in(
                    t,
                    a.repo_url@,
                ) && text::occurs_in(t, text::trimmed(text::utf8_lossy(out.stderr@))),
                _ => false,
            }
            &&& step(seq![Answer::Output(Err(e))]) == StepView::<Seq<u8>>::Done(Err(e@))
        }),
{
    let url = a.repo_url@;
    let err = text::trimmed(text::utf8_lossy(out.stderr@));
    let none = Seq::<char>::empty();
    let t = "git ls-remote "@ + url + ": "@ + err;
    path_laws::part_of("git ls-remote "@, url, ": "@ + err);
    assert("git ls-remote "@ + url + (": "@ + err) =~= t);
    path_laws::part_of("git ls-remote "@ + url + ": "@, err, none);
    assert(t + none =~= t);
}

/// The output hash is over the commit that git names, and what is said names it.
pub proof fn commit_is_hashed(out: CmdOutput)
    ensures
        ({
            let commit = text::trimmed(text::utf8_lossy(out.stdout@));
            &&& git_clone::head_output(out) is Ok <==> out.success
            &&& git_clone::head_output(out) matches Ok((hash, said)) ==> {
                &&& hash == digest::sha256_of(text::utf8(commit))
                &&& commit.is_suffix_of(said)
                &&& text::occurs_in(said, "HEAD "@)
            }
            &&& git_clone::head_output(out) matches Err(e) ==> Some(e) == command::status_error(out)
        }),
{
    let commit = text::trimmed(text::utf8_lossy(out.stdout@));
    let said = "HEAD "@ + commit;
    path_laws::part_of(Seq::empty(), "HEAD "@, commit);
    assert(Seq::<char>::empty() + "HEAD "@ + commit =~= said);
    assert(said.subrange(said.len() - commit.len(), said.len() as int) =~= commit);
}

/// Where there is a clone already it is fetched, reset to what was fetched, and
/// asked for its commit, each in the clone and each only if the one before ended
/// well.
pub proof fn clones_are_brought_up_to_date(
    a: GitClone,
    fetched: CmdOutput,
    reset: CmdOutput,
    head: CmdOutput,
)
    ensures
        ({
            let step = |answers: Seq<Answer>| git_clone::clone_run_step(a, answers);
            let there = Answer::Flag(true);
            let f = Answer::Output(Ok(fetched));
            let r = Answer::Output(Ok(reset));
            let h = Answer::Output(Ok(head));
            let run = |args: Seq<Seq<char>>|
                StepView::<(Seq<u8>, Seq<char>)>::Ask(RequestView::Run("git"@, args));
            let stop = |out: CmdOutput|
                StepView::<(Seq<u8>, Seq<char>)>::Done(Err(command::status_error(out)->Some_0));
            &&& step(seq![]) == StepView::<(Seq<u8>, Seq<char>)>::Ask(
                RequestView::IsDir(paths::joined_path(a.path@, ".git"@)),
            )
            &&& step(seq![there]) == run(seq!["-C"@, a.path@, "fetch"@, "origin"@, "--quiet"@])
            &&& !fetched.success ==> step(seq![there, f]) == stop(fetched)
            &&& fetched.success ==> step(seq![there, f]) == run(
                seq!["-C"@, a.path@, "reset"@, "--hard"@, "FETCH_HEAD"@, "--quiet"@],
            )
            &&& fetched.success && !reset.success ==> step(seq![there, f, r]) == stop(reset)
            &&& fetched.success && reset.success ==> step(seq![there, f, r]) == run(
                seq!["-C"@, a.path@, "rev-parse"@, "HEAD"@],
            )
            &&& fetched.success && reset.success ==> step(seq![there, f, r, h]) == StepView::Done(
                git_clone::head_output(head),
            )
        }),
{
    let commands = git_clone::update_commands(a.repo_url@, a.path@, true);
    assert(commands.drop_first() =~= seq![commands[1]]);
    assert(commands.drop_first().drop_first() =~= Seq::<Seq<Seq<char>>>::empty());
    reveal_with_fuel(steps::commands_progress, 4);
}

/// Where there is no clone, the directory above it is made first if there is one,
/// then the repository is cloned to its path, then asked for its commit.
pub proof fn missing_clones_are_made(a: GitClone, cloned: CmdOutput, head: CmdOutput, e: String)
    ensures
        ({
            let step = |answers: Seq<Answer>| git_clone::clone_run_step(a, answers);
            let gone = Answer::Flag(false);
            let made = Answer::Created(Ok(()));
            let c = Answer::Output(Ok(cloned));
            let h = Answer::Output(Ok(head));
            let clone = StepView::<(Seq<u8>, Seq<char>)>::Ask(
                RequestView::Run("git"@, seq!["clone"@, "--quiet"@, "--"@, a.repo_url@, a.path@]),
            );
            let ask = StepView::<(Seq<u8>, Seq<char>)>::Ask(
                RequestView::Run("git"@, seq!["-C"@, a.path@, "rev-parse"@, "HEAD"@]),
            );
            let above = paths::parent_of(a.path@);
            if above is Some && above->Some_0.len() > 0 {
                &&& step(seq![gone]) == StepView::<(Seq<u8>, Seq<char>)>::Ask(
                    RequestView::CreateDirs(above->Some_0),
                )
                &&& (step(seq![gone, Answer::Created(Err(e))]) matches StepView::Done(r)
                    && path_laws::says(r, e@))
                &&& step(seq![gone, made]) == clone
                &&& cloned.success ==> step(seq![gone, made, c]) == ask
                &&& !cloned.success ==> step(seq![gone, made, c]) == StepView::<
                    (Seq<u8>, Seq<char>),
                >::Done(Err(command::status_error(cloned)->Some_0))
                &&& cloned.success ==> step(seq![gone, made, c, h]) == StepView::Done(
                    git_clone::head_output(head),
                )
            } else {
                &&& step(seq![gone]) == clone
                &&& cloned.success ==> step(seq![gone, c]) == ask
                &&& !cloned.success ==> step(seq![gone, c]) == StepView::<
                    (Seq<u8>, Seq<char>),
                >::Done(Err(command::status_error(cloned)->Some_0))
                &&& cloned.success ==> step(seq![gone, c, h]) == StepView::Done(
                    git_clone::head_output(head),
                )
            }
        }),
{
    let commands = git_clone::update_commands(a.repo_url@, a.path@, false);
    assert(commands.drop_first() =~= Seq::<Seq<Seq<char>>>::empty());
    reveal_with_fuel(steps::commands_progress, 3);
    path_laws::part_of("create_dir_all: "@, e@, Seq::empty());
    assert("create_dir_all: "@ + e@ + Seq::<char>::empty() =~= "create_dir_all: "@ + e@);
}

} // verus!
