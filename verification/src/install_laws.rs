//! What a `cargo-install` action does with what it was given.

use crate::cargo_install;
use crate::cargo_install::{CargoInstall, CargoSource};
use crate::command::CmdOutput;
use crate::digest;
use crate::manifest;
use crate::order;
use crate::path_laws;
use crate::paths;
use crate::source_hash;
use crate::steps;
use crate::steps::{Answer, Host, RequestView, StepView};
use crate::text;
use crate::text_laws;
use crate::types::{BuildError, BuildErrorView, Sha256};
use vstd::prelude::*;

verus! {

/// One argument directly followed by another.
pub open spec fn followed_by(args: Seq<Seq<char>>, flag: Seq<char>, value: Seq<char>) -> bool {
    exists|i: int|
        0 <= i && i + 1 < args.len() && #[trigger] args[i] == flag && args[i + 1] == value
}

/// An argument that occurs exactly once.
pub open spec fn once(args: Seq<Seq<char>>, flag: Seq<char>) -> bool {
    exists|i: int|
        0 <= i < args.len() && #[trigger] args[i] == flag && forall|j: int|
            0 <= j < args.len() && args[j] == flag ==> j == i
}

/// The number of arguments that name the source.
pub open spec fn source_len(a: CargoInstall) -> int {
    match a.source {
        CargoSource::Git { branch, .. } => if branch is Some {
            4
        } else {
            2
        },
        CargoSource::Path { .. } => 2,
    }
}

/// The number of arguments that name the package.
pub open spec fn package_len(a: CargoInstall) -> int {
    if a.package is Some {
        1
    } else {
        0
    }
}

/// The number of arguments that name the profile.
pub open spec fn profile_len(a: CargoInstall) -> int {
    if a.profile is Some {
        2
    } else {
        0
    }
}

/// The number of arguments that name the features.
pub open spec fn features_len(a: CargoInstall) -> int {
    if a.features@.len() > 0 {
        2
    } else {
        0
    }
}

/// Every choice is an argument of the install, each at its place: the source comes
/// first, then the package, the target, the profile, the features and the root.
/// Nothing else is asked for but that lock files hold and old binaries go.
#[verifier::rlimit(40)]
pub proof fn every_choice_is_an_argument(a: CargoInstall, root: Seq<char>)
    ensures
        ({
            let args = cargo_install::install_arguments(a, root);
            let p = 1 + source_len(a);
            let b = p + package_len(a);
            let q = b + 2;
            let f = q + profile_len(a);
            let n = f + features_len(a);
            &&& args.len() == n + 4
            &&& args[0] == "install"@
            &&& match a.source {
                CargoSource::Git { url, branch } => {
                    &&& args[1] == "--git"@ && args[2] == url@
                    &&& branch matches Some(x) ==> args[3] == "--branch"@ && args[4] == x@
                },
                CargoSource::Path { path } => args[1] == "--path"@ && args[2] == path@,
            }
            &&& a.package matches Some(x) ==> args[p] == x@
            &&& args[b] == "--bin"@
            &&& args[b + 1] == cargo_install::resolved_name(a)
            &&& a.profile matches Some(x) ==> args[q] == "--profile"@ && args[q + 1] == x@
            &&& a.features@.len() > 0 ==> args[f] == "--features"@ && args[f + 1] == text::joined(
                order::text_views(a.features@),
                seq![','],
            )
            &&& args[n] == "--locked"@
            &&& args[n + 1] == "--force"@
            &&& args[n + 2] == "--root"@
            &&& args[n + 3] == root
        }),
{
    reveal_strlit(",");
    assert(","@ =~= seq![',']);
}

/// No text of an install but the flag itself is the flag for features.
pub open spec fn no_text_is_the_features_flag(a: CargoInstall, root: Seq<char>) -> bool {
    let flag = "--features"@;
    &&& match a.source {
        CargoSource::Git { url, branch } => url@ != flag && (branch matches Some(b) ==> b@ != flag),
        CargoSource::Path { path } => path@ != flag,
    }
    &&& a.package matches Some(p) ==> p@ != flag
    &&& a.profile matches Some(p) ==> p@ != flag
    &&& cargo_install::resolved_name(a) != flag
    &&& text::joined(order::text_views(a.features@), seq![',']) != flag
    &&& root != flag
}

/// Feature names without a comma.
pub open spec fn comma_free(features: Seq<Seq<char>>) -> bool {
    forall|i: int| 0 <= i < features.len() ==> !(#[trigger] features[i]).contains(',')
}

/// Features are passed exactly if there are any, once, in one argument, which can
/// be split into the declared ones again.
pub proof fn features_are_passed(a: CargoInstall, root: Seq<char>)
    requires
        no_text_is_the_features_flag(a, root),
    ensures
        ({
            let args = cargo_install::install_arguments(a, root);
            let features = order::text_views(a.features@);
            &&& args.contains("--features"@) <==> features.len() > 0
            &&& features.len() > 0 ==> once(args, "--features"@) && followed_by(
                args,
                "--features"@,
                text::joined(features, seq![',']),
            )
            &&& features.len() > 0 && comma_free(features) ==> text::split_on(
                text::joined(features, seq![',']),
                ',',
            ) == features
        }),
{
    let args = cargo_install::install_arguments(a, root);
    let features = order::text_views(a.features@);
    let flag = "--features"@;
    every_choice_is_an_argument(a, root);
    reveal_strlit("install");
    reveal_strlit("--git");
    reveal_strlit("--branch");
    reveal_strlit("--path");
    reveal_strlit("--bin");
    reveal_strlit("--profile");
    reveal_strlit("--features");
    reveal_strlit("--locked");
    reveal_strlit("--force");
    reveal_strlit("--root");
    assert(flag.len() == 10);
    let f = 1 + source_len(a) + package_len(a) + 2 + profile_len(a);
    assert forall|j: int| 0 <= j < args.len() && args[j] == flag implies j == f && features.len()
        > 0 by {}
    if features.len() > 0 {
        assert(args[f] == flag);
        if comma_free(features) {
            text_laws::joins_split_back(features, ',');
        }
    }
}

/// Installs of the same source, package, target and profile with different
/// features have different arguments, whatever the number of features. Names hold
/// no comma.
pub proof fn features_tell_installs_apart(a: CargoInstall, b: CargoInstall, root: Seq<char>)
    requires
        source_len(a) == source_len(b),
        package_len(a) == package_len(b),
        profile_len(a) == profile_len(b),
        comma_free(order::text_views(a.features@)),
        comma_free(order::text_views(b.features@)),
        cargo_install::install_arguments(a, root) == cargo_install::install_arguments(b, root),
    ensures
        order::text_views(a.features@) == order::text_views(b.features@),
{
    every_choice_is_an_argument(a, root);
    every_choice_is_an_argument(b, root);
    let f = order::text_views(a.features@);
    let g = order::text_views(b.features@);
    if f.len() > 0 {
        text_laws::joins_split_back(f, ',');
        text_laws::joins_split_back(g, ',');
    } else {
        assert(f =~= g);
    }
}

/// The target is the declared one, and the end of the id only where none is
/// declared.
pub proof fn declared_target_counts(a: CargoInstall)
    ensures
        a.crate_name matches Some(name) ==> cargo_install::resolved_name(a) == name@,
        a.crate_name is None ==> cargo_install::resolved_name(a) == text::last_segment_of(a.id@),
{
}

/// One byte string is part of another.
pub open spec fn part_of_bytes(s: Seq<u8>, p: Seq<u8>) -> bool {
    exists|x: Seq<u8>, y: Seq<u8>| s == #[trigger] ((x + p) + y)
}

/// A part stands where it was put.
pub proof fn put_together(x: Seq<u8>, p: Seq<u8>, y: Seq<u8>)
    ensures
        part_of_bytes(x + p + y, p),
{
}

/// The bytes of features with their tags.
pub open spec fn features_size(features: Seq<Seq<char>>) -> int
    decreases features.len(),
{
    if features.len() == 0 {
        0
    } else {
        features_size(features.drop_last()) + 6 + text::utf8(features.last()).len()
    }
}

proof fn feature_bytes_size(features: Seq<Seq<char>>, n: int)
    requires
        0 <= n <= features.len(),
    ensures
        cargo_install::feature_bytes(features, n).len() == features_size(features.take(n)),
    decreases n,
{
    reveal_strlit(":feat:");
    vstd::utf8::is_ascii_chars_encode_utf8(":feat:"@);
    if n > 0 {
        feature_bytes_size(features, n - 1);
        assert(features.take(n).drop_last() =~= features.take(n - 1));
        assert(features.take(n).last() == features[n - 1]);
    }
}

proof fn feature_bytes_hold(features: Seq<Seq<char>>, n: int, i: int)
    requires
        0 <= i < n <= features.len(),
    ensures
        part_of_bytes(
            cargo_install::feature_bytes(features, n),
            text::utf8(":feat:"@) + text::utf8(features[i]),
        ),
    decreases n,
{
    let before = cargo_install::feature_bytes(features, n - 1);
    let tag = text::utf8(":feat:"@);
    let last = text::utf8(features[n - 1]);
    let all = cargo_install::feature_bytes(features, n);
    if i == n - 1 {
        assert(all =~= before + (tag + last) + Seq::<u8>::empty());
        put_together(before, tag + last, Seq::empty());
    } else {
        feature_bytes_hold(features, n - 1, i);
        let p = tag + text::utf8(features[i]);
        let (x, y) = choose|x: Seq<u8>, y: Seq<u8>| before == #[trigger] ((x + p) + y);
        assert(all =~= x + p + (y + tag + last));
        put_together(x, p, y + tag + last);
    }
}

/// What the source adds to the preimage: the URL and the branch, or the digest of
/// the tree, or that there is no tree yet.
pub proof fn source_enters_the_hash(a: CargoInstall, tree: Option<Seq<u8>>)
    ensures
        ({
            let s = cargo_install::source_bytes(a.source, tree);
            match a.source {
                CargoSource::Git { url, branch } => {
                    &&& s.len() == 5 + text::utf8(url@).len() + (match branch {
                        Some(b) => text::utf8(b@).len(),
                        None => 0,
                    })
                    &&& part_of_bytes(s, text::utf8("git:"@) + text::utf8(url@))
                    &&& branch matches Some(b) ==> part_of_bytes(
                        s,
                        text::utf8(":"@) + text::utf8(b@),
                    )
                },
                CargoSource::Path { .. } => match tree {
                    Some(d) => s == text::utf8("path:"@) + d,
                    None => s == text::utf8("path:pre-clone"@),
                },
            }
        }),
{
    reveal_strlit("git:");
    reveal_strlit(":");
    reveal_strlit("path:");
    reveal_strlit("pre-clone");
    reveal_strlit("path:pre-clone");
    vstd::utf8::is_ascii_chars_encode_utf8("git:"@);
    vstd::utf8::is_ascii_chars_encode_utf8(":"@);
    let s = cargo_install::source_bytes(a.source, tree);
    let none = Seq::<u8>::empty();
    match a.source {
        CargoSource::Git { url, branch } => {
            let g = text::utf8("git:"@);
            let u = text::utf8(url@);
            let c = text::utf8(":"@);
            let b = text::utf8(cargo_install::or_empty(manifest::opt_text(branch)));
            assert(s =~= g + u + c + b);
            assert(s =~= none + (g + u) + (c + b));
            put_together(none, g + u, c + b);
            assert(s =~= (g + u) + (c + b) + none);
            put_together(g + u, c + b, none);
            if branch is None {
                assert(text::utf8(Seq::<char>::empty()) =~= none);
            }
        },
        CargoSource::Path { .. } => {
            text::utf8_concat("path:"@, "pre-clone"@);
            assert("path:"@ + "pre-clone"@ =~= "path:pre-clone"@);
        },
    }
}

/// Everything that decides what is built enters the preimage, behind its tag, and
/// nothing else does: no byte is left over.
#[verifier::rlimit(40)]
pub proof fn every_choice_enters_the_hash(
    a: CargoInstall,
    tree: Option<Seq<u8>>,
    arch: Seq<char>,
    os: Seq<char>,
    cargo_version: Seq<u8>,
)
    ensures
        ({
            let s = cargo_install::install_preimage(a, tree, arch, os, cargo_version);
            let features = order::text_views(a.features@);
            let package = cargo_install::or_empty(manifest::opt_text(a.package));
            let profile = cargo_install::or_empty(manifest::opt_text(a.profile));
            let source = cargo_install::source_bytes(a.source, tree);
            &&& source.is_prefix_of(s)
            &&& part_of_bytes(s, text::utf8(":arch:"@) + text::utf8(arch))
            &&& part_of_bytes(s, text::utf8(":os:"@) + text::utf8(os))
            &&& forall|i: int|
                0 <= i < features.len() ==> part_of_bytes(
                    s,
                    text::utf8(":feat:"@) + text::utf8(#[trigger] features[i]),
                )
            &&& part_of_bytes(s, text::utf8(":crate:"@) + text::utf8(cargo_install::resolved_name(a)))
            &&& part_of_bytes(s, text::utf8(":pkg:"@) + text::utf8(package))
            &&& part_of_bytes(s, text::utf8(":profile:"@) + text::utf8(profile))
            &&& part_of_bytes(s, text::utf8(":cargo:"@) + cargo_version)
            &&& s.len() == source.len() + 10 + text::utf8(arch).len() + text::utf8(os).len()
                + features_size(features) + 7 + text::utf8(cargo_install::resolved_name(a)).len()
                + 5 + text::utf8(package).len() + 9 + text::utf8(profile).len() + 7
                + cargo_version.len()
        }),
{
    let features = order::text_views(a.features@);
    let n = features.len() as int;
    assert(n == a.features@.len());
    let s = cargo_install::install_preimage(a, tree, arch, os, cargo_version);
    let none = Seq::<u8>::empty();
    let src = cargo_install::source_bytes(a.source, tree);
    let ta = text::utf8(":arch:"@);
    let to = text::utf8(":os:"@);
    let ua = text::utf8(arch);
    let uo = text::utf8(os);
    let fb = cargo_install::feature_bytes(features, n);
    let c = text::utf8(":crate:"@) + text::utf8(cargo_install::resolved_name(a));
    let k = text::utf8(":pkg:"@) + text::utf8(cargo_install::or_empty(manifest::opt_text(a.package)));
    let r = text::utf8(":profile:"@) + text::utf8(
        cargo_install::or_empty(manifest::opt_text(a.profile)),
    );
    let g = text::utf8(":cargo:"@) + cargo_version;
    platform_parts(arch, os);
    let pl = source_hash::platform_bytes(arch, os);
    pair_up(
        src + pl + fb,
        text::utf8(":crate:"@),
        text::utf8(cargo_install::resolved_name(a)),
        text::utf8(":pkg:"@),
        text::utf8(cargo_install::or_empty(manifest::opt_text(a.package))),
        text::utf8(":profile:"@),
        text::utf8(cargo_install::or_empty(manifest::opt_text(a.profile))),
        text::utf8(":cargo:"@),
        cargo_version,
    );
    assert(s == src + pl + fb + c + k + r + g);
    seven_parts(src, pl, fb, c, k, r, g);
    inner_part(src, pl, fb + c + k + r + g, ta + ua);
    inner_part(src, pl, fb + c + k + r + g, to + uo);
    assert forall|i: int| 0 <= i < n implies part_of_bytes(
        s,
        text::utf8(":feat:"@) + text::utf8(#[trigger] features[i]),
    ) by {
        feature_bytes_hold(features, n, i);
        inner_part(src + pl, fb, c + k + r + g, text::utf8(":feat:"@) + text::utf8(features[i]));
    }
    feature_bytes_size(features, n);
    assert(features.take(n) =~= features);
    reveal_strlit(":crate:");
    reveal_strlit(":pkg:");
    reveal_strlit(":profile:");
    reveal_strlit(":cargo:");
    vstd::utf8::is_ascii_chars_encode_utf8(":crate:"@);
    vstd::utf8::is_ascii_chars_encode_utf8(":pkg:"@);
    vstd::utf8::is_ascii_chars_encode_utf8(":profile:"@);
    vstd::utf8::is_ascii_chars_encode_utf8(":cargo:"@);
}

proof fn pair_up(
    h: Seq<u8>,
    c: Seq<u8>,
    t: Seq<u8>,
    k: Seq<u8>,
    p: Seq<u8>,
    r: Seq<u8>,
    q: Seq<u8>,
    g: Seq<u8>,
    v: Seq<u8>,
)
    ensures
        h + c + t + k + p + r + q + g + v == h + (c + t) + (k + p) + (r + q) + (g + v),
{
    assert(h + c + t =~= h + (c + t));
    let a = h + (c + t);
    assert(a + k + p =~= a + (k + p));
    let b = a + (k + p);
    assert(b + r + q =~= b + (r + q));
    let d = b + (r + q);
    assert(d + g + v =~= d + (g + v));
}

proof fn seven_parts(
    s: Seq<u8>,
    p: Seq<u8>,
    f: Seq<u8>,
    c: Seq<u8>,
    k: Seq<u8>,
    r: Seq<u8>,
    g: Seq<u8>,
)
    ensures
        ({
            let all = s + p + f + c + k + r + g;
            &&& s.is_prefix_of(all)
            &&& all == s + p + (f + c + k + r + g)
            &&& all == s + p + f + (c + k + r + g)
            &&& part_of_bytes(all, c)
            &&& part_of_bytes(all, k)
            &&& part_of_bytes(all, r)
            &&& part_of_bytes(all, g)
            &&& all.len() == s.len() + p.len() + f.len() + c.len() + k.len() + r.len() + g.len()
        }),
{
    let all = s + p + f + c + k + r + g;
    assert(all.subrange(0, s.len() as int) =~= s);
    assert(all =~= s + p + (f + c + k + r + g));
    assert(all =~= s + p + f + (c + k + r + g));
    assert(all =~= s + p + f + c + (k + r + g));
    put_together(s + p + f, c, k + r + g);
    assert(all =~= s + p + f + c + k + (r + g));
    put_together(s + p + f + c, k, r + g);
    put_together(s + p + f + c + k, r, g);
    assert(all =~= s + p + f + c + k + r + g + Seq::<u8>::empty());
    put_together(s + p + f + c + k + r, g, Seq::empty());
}

/// A part of a part is a part.
pub proof fn inner_part(x: Seq<u8>, m: Seq<u8>, y: Seq<u8>, p: Seq<u8>)
    requires
        part_of_bytes(m, p),
    ensures
        part_of_bytes(x + m + y, p),
{
    let (a, b) = choose|a: Seq<u8>, b: Seq<u8>| m == #[trigger] ((a + p) + b);
    assert(x + m + y =~= (x + a) + p + (b + y));
    put_together(x + a, p, b + y);
}

/// Architecture and operating system are named, each behind its tag.
pub proof fn platform_parts(arch: Seq<char>, os: Seq<char>)
    ensures
        ({
            let s = source_hash::platform_bytes(arch, os);
            &&& part_of_bytes(s, text::utf8(":arch:"@) + text::utf8(arch))
            &&& part_of_bytes(s, text::utf8(":os:"@) + text::utf8(os))
            &&& s.len() == 10 + text::utf8(arch).len() + text::utf8(os).len()
        }),
{
    reveal_strlit(":arch:");
    reveal_strlit(":os:");
    vstd::utf8::is_ascii_chars_encode_utf8(":arch:"@);
    vstd::utf8::is_ascii_chars_encode_utf8(":os:"@);
    let s = source_hash::platform_bytes(arch, os);
    let a = text::utf8(":arch:"@) + text::utf8(arch);
    let o = text::utf8(":os:"@) + text::utf8(os);
    let none = Seq::<u8>::empty();
    assert(s =~= none + a + o);
    put_together(none, a, o);
    assert(s =~= a + o + none);
    put_together(a, o, none);
}

/// The hash of a local source: whether there is a tree is asked first, then what it
/// holds, then what the toolchain is. The hash is over what was answered.
pub proof fn local_hash_is_over_the_answers(
    a: CargoInstall,
    host: Host,
    d: Sha256,
    e: BuildError,
    v: CmdOutput,
)
    requires
        a.source is Path,
    ensures
        ({
            let tree = paths::tilde_expanded(a.source->Path_path@, manifest::opt_text(host.home));
            let version = StepView::<Seq<u8>>::Ask(RequestView::Run("cargo"@, seq!["--version"@]));
            let step = |answers: Seq<Answer>| cargo_install::install_hash_step(a, host, answers);
            let hash = |t: Option<Seq<u8>>|
                if v.success {
                    Ok::<Seq<u8>, BuildErrorView>(
                        digest::sha256_of(
                            cargo_install::install_preimage(a, t, host.arch@, host.os@, v.stdout@),
                        ),
                    )
                } else {
                    Err(BuildErrorView::UpstreamUnreachable("cargo --version failed"@))
                };
            &&& step(seq![]) == StepView::<Seq<u8>>::Ask(RequestView::Exists(tree))
            &&& step(seq![Answer::Flag(true)]) == StepView::<Seq<u8>>::Ask(
                RequestView::TreeDigest(tree),
            )
            &&& step(seq![Answer::Flag(false)]) == version
            &&& step(seq![Answer::Flag(true), Answer::Digest(Ok(d))]) == version
            &&& step(seq![Answer::Flag(true), Answer::Digest(Err(e))]) == StepView::<Seq<u8>>::Done(
                Err(e@),
            )
            &&& step(seq![Answer::Flag(false), Answer::Output(Ok(v))]) == StepView::Done(hash(None))
            &&& step(
                seq![Answer::Flag(true), Answer::Digest(Ok(d)), Answer::Output(Ok(v))],
            ) == StepView::Done(hash(Some(d@)))
        }),
{
}

/// The hash of a remote source: only the toolchain is asked for.
pub proof fn remote_hash_is_over_the_answer(a: CargoInstall, host: Host, v: CmdOutput)
    requires
        a.source is Git,
    ensures
        cargo_install::install_hash_step(a, host, seq![]) == StepView::<Seq<u8>>::Ask(
            RequestView::Run("cargo"@, seq!["--version"@]),
        ),
        v.success ==> cargo_install::install_hash_step(a, host, seq![Answer::Output(Ok(v))])
            == StepView::<Seq<u8>>::Done(
            Ok(
                digest::sha256_of(
                    cargo_install::install_preimage(a, None, host.arch@, host.os@, v.stdout@),
                ),
            ),
        ),
        !v.success ==> cargo_install::install_hash_step(a, host, seq![Answer::Output(Ok(v))])
            == StepView::<Seq<u8>>::Done(
            Err(BuildErrorView::UpstreamUnreachable("cargo --version failed"@)),
        ),
{
}

/// An install runs cargo with the arguments for the expanded root, reads the binary
/// back from where cargo put it, and hashes what it holds. A failed install, or a
/// binary that cannot be read, is an error.
pub proof fn install_hashes_the_binary(
    a: CargoInstall,
    host: Host,
    v: CmdOutput,
    bytes: Vec<u8>,
    e: String,
)
    ensures
        ({
            let root = paths::tilde_expanded(a.install_to@, manifest::opt_text(host.home));
            let bin = paths::joined_path(
                paths::joined_path(root, "bin"@),
                cargo_install::resolved_name(a) + host.exe_suffix@,
            );
            let step = |answers: Seq<Answer>| cargo_install::install_run_step(a, host, answers);
            let built = Answer::Output(Ok(v));
            &&& step(seq![]) == StepView::<(Seq<u8>, Seq<char>)>::Ask(
                RequestView::Run("cargo"@, cargo_install::install_arguments(a, root)),
            )
            &&& v.success ==> step(seq![built]) == StepView::<(Seq<u8>, Seq<char>)>::Ask(
                RequestView::Read(bin),
            )
            &&& !v.success ==> (step(seq![built]) matches StepView::Done(Err(
                BuildErrorView::CommandFailed { .. },
            )))
            &&& v.success ==> step(seq![built, Answer::Bytes(Ok(bytes))]) == StepView::<
                (Seq<u8>, Seq<char>),
            >::Done(Ok((digest::sha256_of(bytes@), "installed -> "@ + bin)))
            &&& v.success ==> (step(seq![built, Answer::Bytes(Err(e))]) matches StepView::Done(r)
                && path_laws::says(r, bin) && path_laws::says(r, e@))
        }),
{
    let root = paths::tilde_expanded(a.install_to@, manifest::opt_text(host.home));
    let bin = paths::joined_path(
        paths::joined_path(root, "bin"@),
        cargo_install::resolved_name(a) + host.exe_suffix@,
    );
    let commands = seq![cargo_install::install_arguments(a, root)];
    assert(commands[0] == cargo_install::install_arguments(a, root));
    assert(commands.drop_first() =~= Seq::<Seq<Seq<char>>>::empty());
    reveal_with_fuel(steps::commands_progress, 3);
    let t = "read installed binary "@ + bin + ": "@ + e@;
    path_laws::part_of("read installed binary "@, bin, ": "@ + e@);
    assert("read installed binary "@ + bin + (": "@ + e@) =~= t);
    path_laws::part_of("read installed binary "@ + bin + ": "@, e@, Seq::empty());
    assert("read installed binary "@ + bin + ": "@ + e@ + Seq::<char>::empty() =~= t);
}

/// The binary counts as there exactly if there is a file where the install puts it.
pub proof fn presence_is_asked_for(a: CargoInstall, host: Host, found: bool)
    ensures
        ({
            let root = paths::tilde_expanded(a.install_to@, manifest::opt_text(host.home));
            let bin = paths::joined_path(
                paths::joined_path(root, "bin"@),
                cargo_install::resolved_name(a) + host.exe_suffix@,
            );
            &&& cargo_install::install_present_step(a, host, seq![]) == StepView::<bool>::Ask(
                RequestView::IsFile(bin),
            )
            &&& cargo_install::install_present_step(a, host, seq![Answer::Flag(found)])
                == StepView::<bool>::Done(Ok(found))
        }),
{
}

} // verus!
