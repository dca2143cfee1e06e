//! What holds of every action, whatever the outside answers.

use crate::cargo_install;
use crate::docker;
use crate::docker::DockerBuild;
use crate::factory;
use crate::factory::BuiltAction;
use crate::federation;
use crate::federation::RepolithSync;
use crate::git_clone;
use crate::git_clone::GitClone;
use crate::order;
use crate::paths;
use crate::steps;
use crate::steps::{Answer, Host, ProgressView, RequestView, StepView};
use crate::types::{BuildError, ExecMode};
use vstd::prelude::*;

verus! {

/// The greatest number of questions on the way to an input hash.
pub open spec fn max_hash_questions() -> nat {
    7
}

/// The greatest number of questions of an action at work.
pub open spec fn max_run_questions() -> nat {
    5
}

/// Every action gets to its input hash, or to an error, after a bounded number of
/// questions.
pub proof fn hashing_ends(a: BuiltAction, host: Host, answers: Seq<Answer>)
    requires
        answers.len() >= max_hash_questions(),
    ensures
        factory::hash_step_of(a, host, answers) is Done,
{
}

/// Every action gets to its output, or to an error, after a bounded number of
/// questions.
pub proof fn running_ends(a: BuiltAction, host: Host, answers: Seq<Answer>)
    requires
        answers.len() >= max_run_questions(),
    ensures
        factory::run_step_of(a, host, answers) is Done,
{
    match a {
        BuiltAction::GitClone(g) => {
            let url = g.repo_url@;
            let path = g.path@;
            steps::commands_end("git"@, git_clone::update_commands(url, path, true), answers, 1);
            steps::commands_end("git"@, git_clone::update_commands(url, path, false), answers, 1);
            steps::commands_end("git"@, git_clone::update_commands(url, path, false), answers, 2);
        },
        BuiltAction::CargoInstall(c) => {
            let commands = seq![
                cargo_install::install_arguments(c, cargo_install::root_of(c, host)),
            ];
            steps::commands_end("cargo"@, commands, answers, 0);
        },
        BuiltAction::Docker(d) => {
            match docker::paths_progress(d, answers, 0) {
                ProgressView::Over(p) => {
                    let commands = seq![docker::build_arguments(d.tag@, p.0, p.1)];
                    steps::commands_end("docker"@, commands, answers, 3);
                },
                _ => {},
            }
        },
        BuiltAction::Repolith(_) => {},
    }
}

/// Once an action knows its input hash, further answers change nothing.
pub proof fn hash_is_settled(a: BuiltAction, host: Host, answers: Seq<Answer>, more: Answer)
    requires
        factory::hash_step_of(a, host, answers) is Done,
    ensures
        factory::hash_step_of(a, host, answers.push(more)) == factory::hash_step_of(
            a,
            host,
            answers,
        ),
{
    assert(forall|i: int| 0 <= i < answers.len() ==> answers.push(more)[i] == answers[i]);
}

/// Once an action is done, further answers change nothing.
pub proof fn output_is_settled(a: BuiltAction, host: Host, answers: Seq<Answer>, more: Answer)
    requires
        factory::run_step_of(a, host, answers) is Done,
    ensures
        factory::run_step_of(a, host, answers.push(more)) == factory::run_step_of(
            a,
            host,
            answers,
        ),
{
    assert(forall|i: int| 0 <= i < answers.len() ==> answers.push(more)[i] == answers[i]);
    match a {
        BuiltAction::GitClone(g) => {
            settled_update(g, true, answers, more, 1);
            settled_update(g, false, answers, more, 1);
            settled_update(g, false, answers, more, 2);
        },
        BuiltAction::CargoInstall(c) => {
            let commands = seq![
                cargo_install::install_arguments(c, cargo_install::root_of(c, host)),
            ];
            if !(steps::commands_progress("cargo"@, commands, answers, 0) is Ask) {
                steps::commands_stay_over("cargo"@, commands, answers, more, 0);
            }
        },
        BuiltAction::Docker(d) => {
            match docker::paths_progress(d, answers, 0) {
                ProgressView::Over(p) => {
                    let commands = seq![docker::build_arguments(d.tag@, p.0, p.1)];
                    if !(steps::commands_progress("docker"@, commands, answers, 3) is Ask) {
                        steps::commands_stay_over("docker"@, commands, answers, more, 3);
                    }
                },
                _ => {},
            }
        },
        BuiltAction::Repolith(_) => {},
    }
}

proof fn settled_update(g: GitClone, cloned: bool, answers: Seq<Answer>, more: Answer, k: int)
    ensures
        0 <= k <= answers.len() && git_clone::update_step(g, cloned, answers, k) is Done
            ==> git_clone::update_step(g, cloned, answers.push(more), k) == git_clone::update_step(
            g,
            cloned,
            answers,
            k,
        ),
{
    let commands = git_clone::update_commands(g.repo_url@, g.path@, cloned);
    if 0 <= k <= answers.len() && !(steps::commands_progress("git"@, commands, answers, k) is Ask) {
        steps::commands_stay_over("git"@, commands, answers, more, k);
        let n = k + commands.len();
        if n < answers.len() {
            assert(answers.push(more)[n] == answers[n]);
        }
    }
}

/// A program that could not be run to its end, because it could not be started or
/// because the run was cancelled, ends the hashing with that error.
pub proof fn hashing_stops_on_error(
    a: BuiltAction,
    host: Host,
    answers: Seq<Answer>,
    e: BuildError,
)
    requires
        factory::hash_step_of(a, host, answers) matches StepView::Ask(q) && q is Run,
    ensures
        factory::hash_step_of(a, host, answers.push(Answer::Output(Err(e)))) == StepView::<
            Seq<u8>,
        >::Done(Err(e@)),
{
    let next = answers.push(Answer::Output(Err(e)));
    assert(forall|i: int| 0 <= i < answers.len() ==> next[i] == answers[i]);
    assert(next[answers.len() as int] == Answer::Output(Err(e)));
}

/// A program that fails ends the action with an error: one that could not be run
/// to its end with that error, and one that left a non-zero exit status too.
pub proof fn running_stops_on_error(
    a: BuiltAction,
    host: Host,
    answers: Seq<Answer>,
    bad: Answer,
)
    requires
        factory::run_step_of(a, host, answers) matches StepView::Ask(q) && q is Run,
        steps::command_error(bad) is Some,
    ensures
        factory::run_step_of(a, host, answers.push(bad)) matches StepView::Done(r) && r is Err,
        bad matches Answer::Output(Err(e)) ==> factory::run_step_of(a, host, answers.push(bad))
            == StepView::<(Seq<u8>, Seq<char>)>::Done(Err(e@)),
{
    let next = answers.push(bad);
    assert(forall|i: int| 0 <= i < answers.len() ==> next[i] == answers[i]);
    assert(next[answers.len() as int] == bad);
    match a {
        BuiltAction::GitClone(g) => {
            stopped_update(g, true, answers, bad, 1);
            stopped_update(g, false, answers, bad, 1);
            stopped_update(g, false, answers, bad, 2);
        },
        BuiltAction::CargoInstall(c) => {
            let commands = seq![
                cargo_install::install_arguments(c, cargo_install::root_of(c, host)),
            ];
            steps::commands_end_on_failure("cargo"@, commands, answers, bad, 0);
        },
        BuiltAction::Docker(d) => {
            match docker::paths_progress(d, answers, 0) {
                ProgressView::Over(p) => {
                    let commands = seq![docker::build_arguments(d.tag@, p.0, p.1)];
                    if steps::commands_progress("docker"@, commands, answers, 3) is Ask {
                        steps::commands_end_on_failure("docker"@, commands, answers, bad, 3);
                    } else {
                        steps::commands_stay_over("docker"@, commands, answers, bad, 3);
                    }
                },
                _ => {},
            }
        },
        BuiltAction::Repolith(_) => {},
    }
}

proof fn stopped_update(g: GitClone, cloned: bool, answers: Seq<Answer>, bad: Answer, k: int)
    requires
        steps::command_error(bad) is Some,
    ensures
        0 <= k <= answers.len() && git_clone::update_step(g, cloned, answers, k) is Ask
            ==> git_clone::update_step(g, cloned, answers.push(bad), k) == StepView::<
            (Seq<u8>, Seq<char>),
        >::Done(Err(steps::command_error(bad)->0)),
{
    let commands = git_clone::update_commands(g.repo_url@, g.path@, cloned);
    if 0 <= k <= answers.len() && git_clone::update_step(g, cloned, answers, k) is Ask {
        if steps::commands_progress("git"@, commands, answers, k) is Ask {
            steps::commands_end_on_failure("git"@, commands, answers, bad, k);
        } else {
            steps::commands_stay_over("git"@, commands, answers, bad, k);
            steps::commands_used("git"@, commands, answers, k);
            assert(answers.push(bad)[answers.len() as int] == bad);
        }
    }
}

/// Nothing is built from outside the checkout: context and Dockerfile of a build
/// lie where the checkout really lies, or below it.
pub proof fn builds_stay_inside(
    d: DockerBuild,
    answers: Seq<Answer>,
    program: Seq<char>,
    args: Seq<Seq<char>>,
)
    requires
        docker::docker_run_step(d, answers) == StepView::<(Seq<u8>, Seq<char>)>::Ask(
            RequestView::Run(program, args),
        ),
        answers.len() == 3,
    ensures
        program == "docker"@,
        ({
            let p = docker::paths_progress(d, answers, 0)->Over_0;
            &&& args == docker::build_arguments(d.tag@, p.0, p.1)
            &&& answers[0] matches Answer::Path(Ok(checkout)) && paths::within(p.0, checkout@)
                && paths::within(p.1, checkout@)
        }),
{
    let p = docker::paths_progress(d, answers, 0)->Over_0;
    let commands = seq![docker::build_arguments(d.tag@, p.0, p.1)];
    assert(commands[0] == docker::build_arguments(d.tag@, p.0, p.1));
}

/// A nested stack that is run lies inside its node's checkout, is none of its own
/// ancestors, and is not nested too deeply.
pub proof fn stacks_stay_inside(
    a: RepolithSync,
    answers: Seq<Answer>,
    manifest: Seq<char>,
    dir: Seq<char>,
    chain: Seq<Seq<char>>,
    mode: ExecMode,
)
    requires
        federation::sync_run_step(a, answers) == StepView::<(Seq<u8>, Seq<char>)>::Ask(
            RequestView::SyncStack { manifest, dir, chain, mode },
        ),
    ensures
        answers[0] matches Answer::Path(Ok(checkout)) && paths::within(manifest, checkout@),
        chain == order::text_views(a.chain@).push(manifest),
        !paths::listed(order::text_views(a.chain@), manifest),
        chain.len() <= federation::MAX_FEDERATION_DEPTH,
        mode == a.mode,
{
}

} // verus!
