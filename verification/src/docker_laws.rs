//! What a `docker` action does with what it was given.

use crate::command::CmdOutput;
use crate::digest;
use crate::docker;
use crate::docker::DockerBuild;
use crate::install_laws;
use crate::path_laws;
use crate::paths;
use crate::steps;
use crate::steps::{Answer, ProgressView, RequestView, StepView};
use crate::text;
use crate::types::BuildErrorView;
use vstd::prelude::*;

verus! {

/// Two checkouts add the same to a preimage exactly if git told the same of both:
/// the commit that it printed, or that it could not name one.
pub proof fn checkouts_are_told_apart(g: CmdOutput, h: CmdOutput)
    ensures
        g.success && h.success ==> (docker::checkout_bytes(g) == docker::checkout_bytes(h)
            <==> g.stdout@ == h.stdout@),
        !g.success && !h.success ==> docker::checkout_bytes(g) == docker::checkout_bytes(h),
        g.success && !h.success ==> (docker::checkout_bytes(g) == docker::checkout_bytes(h)
            <==> g.stdout@ == text::utf8("no-git"@)),
{
    let n = text::utf8(":checkout:"@).len() as int;
    assert(docker::checkout_bytes(g).skip(n) =~= if g.success {
        g.stdout@
    } else {
        text::utf8("no-git"@)
    });
    assert(docker::checkout_bytes(h).skip(n) =~= if h.success {
        h.stdout@
    } else {
        text::utf8("no-git"@)
    });
}

/// The context is the declared one, and the checkout only where none is declared.
pub proof fn declared_context_counts(a: DockerBuild)
    ensures
        a.context matches Some(c) ==> docker::context_of(a) == c@,
        a.context is None ==> docker::context_of(a) == seq!['.'],
{
    reveal_strlit(".");
    assert("."@ =~= seq!['.']);
}

/// A declared Dockerfile is the one that is built from, whether or not a context is
/// declared: it lies below the context, or below the checkout where there is none.
/// Only where none is declared is it `Dockerfile`.
pub proof fn declared_dockerfile_counts(a: DockerBuild)
    ensures
        a.dockerfile matches Some(d) ==> (match a.context {
            Some(c) => docker::dockerfile_of(a) == paths::joined_path(c@, d@),
            None => docker::dockerfile_of(a) == paths::joined_path(seq!['.'], d@),
        }),
        a.dockerfile is None ==> (match a.context {
            Some(c) => docker::dockerfile_of(a) == paths::joined_path(c@, "Dockerfile"@),
            None => docker::dockerfile_of(a) == paths::joined_path(seq!['.'], "Dockerfile"@),
        }),
        a.dockerfile matches Some(d) ==> d@.is_suffix_of(docker::dockerfile_of(a)),
{
    declared_context_counts(a);
    if let Some(d) = a.dockerfile {
        path_laws::joining_keeps_both(docker::context_of(a), d@);
        let p = docker::dockerfile_of(a);
        assert(p.subrange(p.len() - d@.len(), p.len() as int) =~= d@);
    }
}

/// Builds in the same context from different Dockerfiles ask for different files,
/// wherever the checkout really lies; the one that is taken where none is declared
/// counts too.
pub proof fn dockerfiles_are_told_apart(a: DockerBuild, b: DockerBuild, base: Seq<char>)
    requires
        docker::context_of(a) == docker::context_of(b),
        a.dockerfile matches Some(d) ==> !text::first_is(d@, '/'),
        b.dockerfile matches Some(d) ==> !text::first_is(d@, '/'),
        paths::joined_path(base, docker::dockerfile_of(a)) == paths::joined_path(
            base,
            docker::dockerfile_of(b),
        ),
    ensures
        ({
            let declared = |x: DockerBuild|
                match x.dockerfile {
                    Some(d) => d@,
                    None => "Dockerfile"@,
                };
            declared(a) == declared(b)
        }),
{
    reveal_strlit("Dockerfile");
    let c = docker::context_of(a);
    let d = match a.dockerfile {
        Some(d) => d@,
        None => "Dockerfile"@,
    };
    let e = match b.dockerfile {
        Some(d) => d@,
        None => "Dockerfile"@,
    };
    path_laws::joining_keeps_both(c, d);
    path_laws::joining_keeps_both(c, e);
    let p = docker::dockerfile_of(a);
    let q = docker::dockerfile_of(b);
    path_laws::joining_keeps_both(base, p);
    path_laws::joining_keeps_both(base, q);
    if c.len() > 0 {
        assert(p[0] == c[0] && q[0] == c[0]);
    }
    if !text::first_is(p, '/') {
        path_laws::joining_tells_apart(base, p, q);
    }
    path_laws::joining_tells_apart(c, d, e);
}

/// Checkout, context and Dockerfile are resolved in this order, the latter two below
/// where the checkout really lies. The build gets what they were resolved to.
pub proof fn both_paths_are_resolved(
    a: DockerBuild,
    base: String,
    context: String,
    dockerfile: String,
)
    requires
        paths::within(context@, base@),
        paths::within(dockerfile@, base@),
    ensures
        ({
            let b = Answer::Path(Ok(base));
            let c = Answer::Path(Ok(context));
            let d = Answer::Path(Ok(dockerfile));
            let at = |answers: Seq<Answer>| docker::paths_progress(a, answers, 0);
            &&& at(seq![]) == ProgressView::<(Seq<char>, Seq<char>)>::Ask(
                RequestView::Canonicalize(a.node_path@),
            )
            &&& at(seq![b]) == ProgressView::<(Seq<char>, Seq<char>)>::Ask(
                RequestView::Canonicalize(paths::joined_path(base@, docker::context_of(a))),
            )
            &&& at(seq![b, c]) == ProgressView::<(Seq<char>, Seq<char>)>::Ask(
                RequestView::Canonicalize(paths::joined_path(base@, docker::dockerfile_of(a))),
            )
            &&& at(seq![b, c, d]) == ProgressView::Over((context@, dockerfile@))
        }),
{
}

/// A Dockerfile or a context that cannot be resolved, or that lies outside the
/// checkout, is an error that names it, and nothing is built.
pub proof fn unresolved_paths_are_errors(
    a: DockerBuild,
    base: String,
    context: String,
    dockerfile: String,
    e: String,
)
    requires
        paths::within(context@, base@),
    ensures
        ({
            let b = Answer::Path(Ok(base));
            let c = Answer::Path(Ok(context));
            let d = Answer::Path(Ok(dockerfile));
            let x = Answer::Path(Err(e));
            let failure = |answers: Seq<Answer>, p: Seq<char>|
                docker::paths_progress(a, answers, 0) matches ProgressView::Failed(
                    BuildErrorView::Io(t),
                ) && text::occurs_in(t, p);
            &&& failure(seq![x], a.node_path@)
            &&& failure(seq![b, x], paths::joined_path(base@, docker::context_of(a)))
            &&& failure(seq![b, c, x], paths::joined_path(base@, docker::dockerfile_of(a)))
            &&& !paths::within(dockerfile@, base@) ==> failure(seq![b, c, d], dockerfile@)
        }),
{
    let n = a.node_path@;
    let b = Ok::<Seq<char>, Seq<char>>(base@);
    let x = Err::<Seq<char>, Seq<char>>(e@);
    let c = docker::context_of(a);
    let d = docker::dockerfile_of(a);
    path_laws::only_what_lies_inside_is_contained(n, x, c, x);
    path_laws::only_what_lies_inside_is_contained(n, b, c, x);
    path_laws::only_what_lies_inside_is_contained(n, b, c, Ok(context@));
    path_laws::only_what_lies_inside_is_contained(n, b, d, x);
    path_laws::only_what_lies_inside_is_contained(n, b, d, Ok(dockerfile@));
}

/// The input hash is over what the machine answered: the Dockerfile and the commit
/// of the context, as they were resolved, and the engine. Without a checkout it is
/// over the tag alone.
pub proof fn hash_is_over_the_answers(
    a: DockerBuild,
    base: String,
    context: String,
    dockerfile: String,
    bytes: Vec<u8>,
    head: CmdOutput,
    version: CmdOutput,
)
    requires
        paths::within(context@, base@),
        paths::within(dockerfile@, base@),
    ensures
        ({
            let f = Answer::Flag(true);
            let b = Answer::Path(Ok(base));
            let c = Answer::Path(Ok(context));
            let d = Answer::Path(Ok(dockerfile));
            let r = Answer::Bytes(Ok(bytes));
            let h = Answer::Output(Ok(head));
            let v = Answer::Output(Ok(version));
            let step = |answers: Seq<Answer>| docker::docker_hash_step(a, answers);
            let run = |p: Seq<char>, args: Seq<Seq<char>>|
                StepView::<Seq<u8>>::Ask(RequestView::Run(p, args));
            &&& step(seq![]) == StepView::<Seq<u8>>::Ask(RequestView::Exists(a.node_path@))
            &&& step(seq![Answer::Flag(false)]) == StepView::<Seq<u8>>::Done(
                Ok(digest::sha256_of(docker::pre_clone_preimage(a.tag@))),
            )
            &&& step(seq![f]) == StepView::<Seq<u8>>::Ask(RequestView::Canonicalize(a.node_path@))
            &&& step(seq![f, b, c, d]) == StepView::<Seq<u8>>::Ask(RequestView::Read(dockerfile@))
            &&& step(seq![f, b, c, d, r]) == run(
                "git"@,
                seq!["-C"@, context@, "rev-parse"@, "HEAD"@],
            )
            &&& step(seq![f, b, c, d, r, h]) == run("docker"@, seq!["--version"@])
            &&& version.success ==> step(seq![f, b, c, d, r, h, v]) == StepView::<Seq<u8>>::Done(
                Ok(
                    digest::sha256_of(
                        docker::docker_preimage(a.tag@, bytes@, head, version.stdout@),
                    ),
                ),
            )
            &&& !version.success ==> (step(seq![f, b, c, d, r, h, v]) matches StepView::Done(
                Err(BuildErrorView::UpstreamUnreachable(_)),
            ))
        }),
{
}

/// Tag, Dockerfile, checkout and engine enter the preimage, and nothing else does:
/// no byte is left over.
pub proof fn every_input_enters_the_hash(
    tag: Seq<char>,
    dockerfile: Seq<u8>,
    head: CmdOutput,
    version: Seq<u8>,
)
    ensures
        ({
            let s = docker::docker_preimage(tag, dockerfile, head, version);
            &&& install_laws::part_of_bytes(s, text::utf8("docker:tag:"@) + text::utf8(tag))
            &&& install_laws::part_of_bytes(s, text::utf8(":dockerfile:"@) + dockerfile)
            &&& install_laws::part_of_bytes(s, docker::checkout_bytes(head))
            &&& install_laws::part_of_bytes(s, text::utf8(":docker:"@) + version)
            &&& s.len() == 11 + text::utf8(tag).len() + 12 + dockerfile.len()
                + docker::checkout_bytes(head).len() + 8 + version.len()
        }),
{
    reveal_strlit("docker:tag:");
    reveal_strlit(":dockerfile:");
    reveal_strlit(":docker:");
    vstd::utf8::is_ascii_chars_encode_utf8("docker:tag:"@);
    vstd::utf8::is_ascii_chars_encode_utf8(":dockerfile:"@);
    vstd::utf8::is_ascii_chars_encode_utf8(":docker:"@);
    let t = text::utf8("docker:tag:"@) + text::utf8(tag);
    let d = text::utf8(":dockerfile:"@) + dockerfile;
    let c = docker::checkout_bytes(head);
    let v = text::utf8(":docker:"@) + version;
    let s = docker::docker_preimage(tag, dockerfile, head, version);
    let none = Seq::<u8>::empty();
    assert(s =~= t + d + c + v);
    assert(s =~= none + t + (d + c + v));
    install_laws::put_together(none, t, d + c + v);
    assert(s =~= t + d + (c + v));
    install_laws::put_together(t, d, c + v);
    install_laws::put_together(t + d, c, v);
    assert(s =~= t + d + c + v + none);
    install_laws::put_together(t + d + c, v, none);
}

/// Before there is a checkout, only the tag tells two images apart, and it does.
pub proof fn tags_are_told_apart(a: Seq<char>, b: Seq<char>)
    requires
        docker::pre_clone_preimage(a) == docker::pre_clone_preimage(b),
    ensures
        text::utf8(a) == text::utf8(b),
{
    let p = text::utf8("docker:tag:"@);
    let q = text::utf8(":pre-clone"@);
    let s = docker::pre_clone_preimage(a);
    assert(text::utf8(a) =~= s.subrange(p.len() as int, s.len() - q.len()));
    assert(text::utf8(b) =~= s.subrange(p.len() as int, s.len() - q.len()));
}

/// The build names the Dockerfile, the tag and the context, the context last and
/// behind the end of the options.
pub proof fn build_names_its_inputs(tag: Seq<char>, context: Seq<char>, dockerfile: Seq<char>)
    ensures
        ({
            let args = docker::build_arguments(tag, context, dockerfile);
            &&& args.len() == 7
            &&& args[0] == "build"@
            &&& install_laws::followed_by(args, "-f"@, dockerfile)
            &&& install_laws::followed_by(args, "-t"@, tag)
            &&& args[5] == "--"@
            &&& args.last() == context
        }),
        ({
            let args = docker::inspect_arguments(tag);
            &&& args.len() == 6
            &&& args[0] == "image"@
            &&& args[1] == "inspect"@
            &&& install_laws::followed_by(args, "--format"@, "{{.Id}}"@)
            &&& args[4] == "--"@
            &&& args.last() == tag
        }),
{
    let args = docker::build_arguments(tag, context, dockerfile);
    assert(args[1] == "-f"@ && args[2] == dockerfile);
    assert(args[3] == "-t"@ && args[4] == tag);
    let more = docker::inspect_arguments(tag);
    assert(more[2] == "--format"@ && more[3] == "{{.Id}}"@);
}

/// A build runs docker on what was resolved, then asks for the image by its tag and
/// hashes the id that was printed. A failed build is an error.
pub proof fn build_hashes_the_image(
    a: DockerBuild,
    base: String,
    context: String,
    dockerfile: String,
    built: CmdOutput,
    image: CmdOutput,
)
    requires
        paths::within(context@, base@),
        paths::within(dockerfile@, base@),
    ensures
        ({
            let b = Answer::Path(Ok(base));
            let c = Answer::Path(Ok(context));
            let d = Answer::Path(Ok(dockerfile));
            let o = Answer::Output(Ok(built));
            let i = Answer::Output(Ok(image));
            let step = |answers: Seq<Answer>| docker::docker_run_step(a, answers);
            &&& step(seq![]) == StepView::<(Seq<u8>, Seq<char>)>::Ask(
                RequestView::Canonicalize(a.node_path@),
            )
            &&& step(seq![b, c, d]) == StepView::<(Seq<u8>, Seq<char>)>::Ask(
                RequestView::Run(
                    "docker"@,
                    docker::build_arguments(a.tag@, context@, dockerfile@),
                ),
            )
            &&& !built.success ==> (step(seq![b, c, d, o]) matches StepView::Done(
                Err(BuildErrorView::CommandFailed { .. }),
            ))
            &&& built.success ==> step(seq![b, c, d, o]) == StepView::<(Seq<u8>, Seq<char>)>::Ask(
                RequestView::Run("docker"@, docker::inspect_arguments(a.tag@)),
            )
            &&& built.success ==> step(seq![b, c, d, o, i]) == StepView::Done(
                docker::image_output(a.tag@, image),
            )
        }),
{
    let commands = seq![docker::build_arguments(a.tag@, context@, dockerfile@)];
    assert(commands[0] == docker::build_arguments(a.tag@, context@, dockerfile@));
    assert(commands.drop_first() =~= Seq::<Seq<Seq<char>>>::empty());
    reveal_with_fuel(steps::commands_progress, 3);
}

/// An image counts exactly if docker printed an id for it, and the output hash is
/// over that id without the white space around it. What is said names tag and id.
pub proof fn image_id_is_hashed(tag: Seq<char>, inspect: CmdOutput)
    ensures
        ({
            let id = text::trimmed(text::utf8_lossy(inspect.stdout@));
            let r = docker::image_output(tag, inspect);
            &&& r is Ok <==> inspect.success && id.len() > 0
            &&& r matches Ok((hash, said)) ==> {
                &&& hash == digest::sha256_of(text::utf8(id))
                &&& text::occurs_in(said, tag)
                &&& text::occurs_in(said, id)
            }
            &&& r is Err ==> path_laws::says(r, tag)
            &&& !inspect.success ==> path_laws::says(
                r,
                text::trimmed(text::utf8_lossy(inspect.stderr@)),
            )
        }),
{
    let id = text::trimmed(text::utf8_lossy(inspect.stdout@));
    let err = text::trimmed(text::utf8_lossy(inspect.stderr@));
    let none = Seq::<char>::empty();
    let said = "built "@ + tag + " -> "@ + id;
    path_laws::part_of("built "@, tag, " -> "@ + id);
    assert("built "@ + tag + (" -> "@ + id) =~= said);
    path_laws::part_of("built "@ + tag + " -> "@, id, none);
    assert(said + none =~= said);
    let f = "docker image inspect "@ + tag + " failed after build: "@ + err;
    path_laws::part_of("docker image inspect "@, tag, " failed after build: "@ + err);
    assert("docker image inspect "@ + tag + (" failed after build: "@ + err) =~= f);
    path_laws::part_of("docker image inspect "@ + tag + " failed after build: "@, err, none);
    assert(f + none =~= f);
    path_laws::part_of("docker image inspect "@, tag, " returned an empty id"@);
}

} // verus!
