//! The `cargo-install` action: installs a binary crate from git or from a
//! local source tree.

use crate::command;
use crate::command::CmdOutput;
use crate::digest;
use crate::digest::Hasher;
use crate::git_clone;
use crate::manifest;
use crate::order;
use crate::paths;
use crate::source_hash;
use crate::source_hash_laws;
use crate::steps;
use crate::steps::{Answer, Host, Progress, ProgressView, Request, RequestView, Step, StepView};
use crate::text;
use crate::types::{ActionId, BuildError, BuildErrorView, BuildOutput, Sha256};
use vstd::prelude::*;

verus! {

/// Where the crate is pulled from.
#[derive(Clone, Debug)]
pub enum CargoSource {
    /// A remote repository.
    Git {
        /// Remote git URL.
        url: String,
        /// Optional branch; `None` lets cargo pick the default branch.
        branch: Option<String>,
    },
    /// A local source tree.
    Path {
        /// Path of the crate root.
        path: String,
    },
}

/// Action that installs a binary crate.
#[derive(Debug)]
pub struct CargoInstall {
    /// Action identifier for the plan.
    pub id: ActionId,
    /// Where the crate source lives.
    pub source: CargoSource,
    /// Binary target to install. Defaults to the last `::`-separated segment of
    /// the id.
    pub crate_name: Option<String>,
    /// Package to select from a source that holds more than one.
    pub package: Option<String>,
    /// Cargo profile; cargo's default when absent.
    pub profile: Option<String>,
    /// Cargo features to enable.
    pub features: Vec<String>,
    /// Install root: the binary goes to `bin` below it.
    pub install_to: String,
    /// Ids of actions that must complete before this one runs.
    pub deps: Vec<ActionId>,
}

/// The binary target: the given name, or the last segment of the id.
pub open spec fn resolved_name(a: CargoInstall) -> Seq<char> {
    match a.crate_name {
        Some(name) => name@,
        None => text::last_segment_of(a.id@),
    }
}

/// An optional text, empty where absent.
pub open spec fn or_empty(s: Option<Seq<char>>) -> Seq<char> {
    match s {
        Some(s) => s,
        None => Seq::empty(),
    }
}

/// What the source adds to the preimage. A local tree adds the digest of its
/// content, or a marker where the tree does not exist yet.
pub open spec fn source_bytes(source: CargoSource, tree: Option<Seq<u8>>) -> Seq<u8> {
    match source {
        CargoSource::Git { url, branch } => text::utf8("git:"@) + text::utf8(url@) + text::utf8(
            ":"@,
        ) + text::utf8(or_empty(manifest::opt_text(branch))),
        CargoSource::Path { .. } => text::utf8("path:"@) + match tree {
            Some(d) => d,
            None => text::utf8("pre-clone"@),
        },
    }
}

/// What the first `n` features add to the preimage.
pub open spec fn feature_bytes(features: Seq<Seq<char>>, n: int) -> Seq<u8>
    decreases n,
{
    if n <= 0 {
        Seq::empty()
    } else {
        feature_bytes(features, n - 1) + text::utf8(":feat:"@) + text::utf8(features[n - 1])
    }
}

/// The preimage of the input hash: source, platform, features, target, package,
/// profile and toolchain.
pub open spec fn install_preimage(
    a: CargoInstall,
    tree: Option<Seq<u8>>,
    arch: Seq<char>,
    os: Seq<char>,
    cargo_version: Seq<u8>,
) -> Seq<u8> {
    source_bytes(a.source, tree) + source_hash::platform_bytes(arch, os) + feature_bytes(
        order::text_views(a.features@),
        a.features@.len() as int,
    ) + text::utf8(":crate:"@) + text::utf8(resolved_name(a)) + text::utf8(":pkg:"@)
        + text::utf8(or_empty(manifest::opt_text(a.package))) + text::utf8(":profile:"@)
        + text::utf8(or_empty(manifest::opt_text(a.profile))) + text::utf8(":cargo:"@)
        + cargo_version
}

fn update_opt(h: &mut Hasher, s: &Option<String>)
    ensures
        final(h)@ == old(h)@ + text::utf8(or_empty(manifest::opt_text(*s))),
{
    match s {
        Some(s) => {
            h.update_text(s);
        },
        None => {
            let empty = String::new();
            h.update_text(&empty);
        },
    }
}

/// The hash of a local tree, as far as there is one.
pub open spec fn opt_hash(h: Option<Sha256>) -> Option<Seq<u8>> {
    match h {
        Some(h) => Some(h@),
        None => None,
    }
}

/// What hashing the inputs comes to, given what `cargo --version` printed.
pub open spec fn install_hash(
    a: CargoInstall,
    tree: Option<Seq<u8>>,
    arch: Seq<char>,
    os: Seq<char>,
    version: CmdOutput,
) -> Result<Seq<u8>, BuildErrorView> {
    if version.success {
        Ok(digest::sha256_of(install_preimage(a, tree, arch, os, version.stdout@)))
    } else {
        Err(BuildErrorView::UpstreamUnreachable("cargo --version failed"@))
    }
}

/// What reading the installed binary back comes to.
pub open spec fn binary_output(bin: Seq<char>, content: Result<Vec<u8>, String>) -> Result<
    (Seq<u8>, Seq<char>),
    BuildErrorView,
> {
    match content {
        Ok(bytes) => Ok((digest::sha256_of(bytes@), "installed -> "@ + bin)),
        Err(e) => Err(BuildErrorView::Io("read installed binary "@ + bin + ": "@ + e@)),
    }
}

/// The next step once the source tree is dealt with, with the answers from
/// position `k` on: ask for the toolchain, then hash.
pub open spec fn version_step(
    a: CargoInstall,
    host: Host,
    tree: Option<Seq<u8>>,
    answers: Seq<Answer>,
    k: int,
) -> StepView<Seq<u8>> {
    if answers.len() <= k {
        StepView::Ask(RequestView::Run("cargo"@, seq!["--version"@]))
    } else {
        match answers[k] {
            Answer::Output(Ok(v)) => StepView::Done(
                install_hash(a, tree, host.arch@, host.os@, v),
            ),
            Answer::Output(Err(e)) => steps::failed(e@),
            _ => steps::no_answer(),
        }
    }
}

/// The next step towards the input hash: digest a local source tree if it is
/// there, ask for the toolchain, then hash.
pub open spec fn install_hash_step(a: CargoInstall, host: Host, answers: Seq<Answer>) -> StepView<
    Seq<u8>,
> {
    match a.source {
        CargoSource::Git { .. } => version_step(a, host, None, answers, 0),
        CargoSource::Path { path } => {
            let tree = paths::tilde_expanded(path@, manifest::opt_text(host.home));
            if answers.len() == 0 {
                StepView::Ask(RequestView::Exists(tree))
            } else {
                match answers[0] {
                    Answer::Flag(found) => if !found {
                        version_step(a, host, None, answers, 1)
                    } else if answers.len() == 1 {
                        StepView::Ask(RequestView::TreeDigest(tree))
                    } else {
                        match answers[1] {
                            Answer::Digest(Ok(d)) => version_step(a, host, Some(d@), answers, 2),
                            Answer::Digest(Err(e)) => steps::failed(e@),
                            _ => steps::no_answer(),
                        }
                    },
                    _ => steps::no_answer(),
                }
            }
        },
    }
}

/// The expanded install root.
pub open spec fn root_of(a: CargoInstall, host: Host) -> Seq<char> {
    paths::tilde_expanded(a.install_to@, manifest::opt_text(host.home))
}

/// Where the binary is written.
pub open spec fn binary_of(a: CargoInstall, host: Host) -> Seq<char> {
    binary_path(root_of(a, host), resolved_name(a), host.exe_suffix@)
}

/// The next step of the action: install, then read the binary back.
pub open spec fn install_run_step(a: CargoInstall, host: Host, answers: Seq<Answer>) -> StepView<
    (Seq<u8>, Seq<char>),
> {
    let commands = seq![install_arguments(a, root_of(a, host))];
    match steps::commands_progress("cargo"@, commands, answers, 0) {
        ProgressView::Ask(q) => StepView::Ask(q),
        ProgressView::Failed(e) => steps::failed(e),
        ProgressView::Over(_) => if answers.len() <= 1 {
            StepView::Ask(RequestView::Read(binary_of(a, host)))
        } else {
            match answers[1] {
                Answer::Bytes(content) => StepView::Done(
                    binary_output(binary_of(a, host), content),
                ),
                _ => steps::no_answer(),
            }
        },
    }
}

/// The next step towards whether the binary is there.
pub open spec fn install_present_step(
    a: CargoInstall,
    host: Host,
    answers: Seq<Answer>,
) -> StepView<bool> {
    if answers.len() == 0 {
        StepView::Ask(RequestView::IsFile(binary_of(a, host)))
    } else {
        match answers[0] {
            Answer::Flag(found) => StepView::Done(Ok(found)),
            _ => steps::no_answer(),
        }
    }
}

/// The file name of the installed binary.
pub open spec fn binary_path(root: Seq<char>, name: Seq<char>, exe_suffix: Seq<char>) -> Seq<char> {
    paths::joined_path(paths::joined_path(root, "bin"@), name + exe_suffix)
}

/// The argument list of the install.
pub open spec fn install_arguments(a: CargoInstall, root: Seq<char>) -> Seq<Seq<char>> {
    seq!["install"@] + (match a.source {
        CargoSource::Git { url, branch } => seq!["--git"@, url@] + match branch {
            Some(b) => seq!["--branch"@, b@],
            None => Seq::empty(),
        },
        CargoSource::Path { path } => seq!["--path"@, path@],
    }) + (match a.package {
        Some(p) => seq![p@],
        None => Seq::empty(),
    }) + seq!["--bin"@, resolved_name(a)] + (match a.profile {
        Some(p) => seq!["--profile"@, p@],
        None => Seq::empty(),
    }) + (if a.features@.len() > 0 {
        seq!["--features"@, text::joined(order::text_views(a.features@), ","@)]
    } else {
        Seq::empty()
    }) + seq!["--locked"@, "--force"@, "--root"@, root]
}

impl CargoInstall {
    /// The binary target.
    pub fn resolved_crate_name(&self) -> (r: String)
        ensures
            r@ == resolved_name(*self),
    {
        match &self.crate_name {
            Some(name) => name.clone(),
            None => text::last_segment(&self.id.0),
        }
    }

    /// Where the binary is written below the expanded install root `root`.
    pub fn installed_bin(&self, root: &str, exe_suffix: &str) -> (r: String)
        ensures
            r@ == binary_path(root@, resolved_name(*self), exe_suffix@),
    {
        let mut file = self.resolved_crate_name();
        file.append(exe_suffix);
        paths::join_path(&paths::join_path(root, "bin"), &file)
    }

    /// The input hash, given the digest of the local source tree where it
    /// exists, the platform, and what `cargo --version` printed.
    #[verifier::rlimit(30)]
    pub fn input_hash(
        &self,
        tree: Option<Sha256>,
        arch: &str,
        os: &str,
        version: &CmdOutput,
    ) -> (r: Result<Sha256, BuildError>)
        ensures
            git_clone::hash_result(r) == install_hash(
                *self,
                opt_hash(tree),
                arch@,
                os@,
                *version,
            ),
    {
        if !version.success {
            return Err(BuildError::UpstreamUnreachable("cargo --version failed".to_owned()));
        }
        let mut h = Hasher::new();
        match &self.source {
            CargoSource::Git { url, branch } => {
                h.update_text("git:");
                h.update_text(url);
                h.update_text(":");
                update_opt(&mut h, branch);
            },
            CargoSource::Path { .. } => {
                h.update_text("path:");
                match tree {
                    Some(d) => {
                        h.update(&d.0);
                    },
                    None => {
                        h.update_text("pre-clone");
                    },
                }
            },
        }
        assert(h@ =~= source_bytes(self.source, opt_hash(tree)));
        source_hash::platform_tag(&mut h, arch, os);
        let ghost fv = order::text_views(self.features@);
        let ghost before = h@;
        let mut i: usize = 0;
        assert(before + feature_bytes(fv, 0) =~= before);
        while i < self.features.len()
            invariant
                i <= self.features.len(),
                fv == order::text_views(self.features@),
                h@ == before + feature_bytes(fv, i as int),
            decreases self.features.len() - i,
        {
            h.update_text(":feat:");
            h.update_text(&self.features[i]);
            assert(fv[i as int] == self.features@[i as int]@);
            i = i + 1;
            assert(h@ =~= before + feature_bytes(fv, i as int));
        }
        h.update_text(":crate:");
        h.update_text(&self.resolved_crate_name());
        h.update_text(":pkg:");
        update_opt(&mut h, &self.package);
        h.update_text(":profile:");
        update_opt(&mut h, &self.profile);
        h.update_text(":cargo:");
        h.update(version.stdout.as_slice());
        assert(h@ =~= install_preimage(*self, opt_hash(tree), arch@, os@, version.stdout@));
        Ok(h.finalize())
    }

    /// Arguments of the `cargo` call that installs into the expanded root `root`.
    ///
    /// The package goes in as a positional argument, the binary target by name:
    /// the one selects from the source, the other within the package.
    pub fn install_args(&self, root: &str) -> (r: Vec<String>)
        ensures
            order::text_views(r@) == install_arguments(*self, root@),
    {
        let mut a = command::no_args();
        command::push_arg(&mut a, "install");
        match &self.source {
            CargoSource::Git { url, branch } => {
                command::push_arg(&mut a, "--git");
                command::push_arg(&mut a, url);
                match branch {
                    Some(b) => {
                        command::push_arg(&mut a, "--branch");
                        command::push_arg(&mut a, b);
                    },
                    None => {},
                }
            },
            CargoSource::Path { path } => {
                command::push_arg(&mut a, "--path");
                command::push_arg(&mut a, path);
            },
        }
        match &self.package {
            Some(p) => {
                command::push_arg(&mut a, p);
            },
            None => {},
        }
        command::push_arg(&mut a, "--bin");
        command::push_arg(&mut a, &self.resolved_crate_name());
        match &self.profile {
            Some(p) => {
                command::push_arg(&mut a, "--profile");
                command::push_arg(&mut a, p);
            },
            None => {},
        }
        if self.features.len() > 0 {
            command::push_arg(&mut a, "--features");
            command::push_arg(&mut a, &text::join(&self.features, ","));
        }
        command::push_arg(&mut a, "--locked");
        command::push_arg(&mut a, "--force");
        command::push_arg(&mut a, "--root");
        command::push_arg(&mut a, root);
        assert(order::text_views(a@) =~= install_arguments(*self, root@));
        a
    }

    /// The result of the action, given what reading the installed binary back
    /// gave: its content, or the message of the error.
    pub fn output(&self, bin: &str, content: &Result<Vec<u8>, String>) -> (r: Result<
        BuildOutput,
        BuildError,
    >)
        ensures
            git_clone::output_result(r) == binary_output(bin@, *content),
    {
        match content {
            Ok(bytes) => {
                let mut h = Hasher::new();
                h.update(bytes.as_slice());
                assert(h@ =~= bytes@);
                let mut stdout = "installed -> ".to_owned();
                stdout.append(bin);
                Ok(BuildOutput { output_hash: h.finalize(), stdout })
            },
            Err(e) => {
                let mut s = "read installed binary ".to_owned();
                s.append(bin);
                s.append(": ");
                s.append(e);
                Err(BuildError::Io(s))
            },
        }
    }

    fn next_version(
        &self,
        host: &Host,
        tree: Option<Sha256>,
        answers: &Vec<Answer>,
        k: usize,
    ) -> (r: Step<Sha256>)
        ensures
            steps::hash_view(r) == version_step(*self, *host, opt_hash(tree), answers@, k as int),
    {
        if answers.len() <= k {
            let mut args = command::no_args();
            command::push_arg(&mut args, "--version");
            assert(order::text_views(args@) =~= seq!["--version"@]);
            return Step::Ask(steps::run("cargo", args));
        }
        match &answers[k] {
            Answer::Output(Ok(v)) => Step::Done(self.input_hash(tree, &host.arch, &host.os, v)),
            Answer::Output(Err(e)) => Step::Done(Err(e.clone())),
            _ => Step::Done(Err(BuildError::Cancelled)),
        }
    }

    /// The next step towards the input hash, given the answers so far.
    pub fn hash_step(&self, host: &Host, answers: &Vec<Answer>) -> (r: Step<Sha256>)
        ensures
            steps::hash_view(r) == install_hash_step(*self, *host, answers@),
    {
        match &self.source {
            CargoSource::Git { .. } => self.next_version(host, None, answers, 0),
            CargoSource::Path { path } => {
                let tree = paths::expand_tilde_in(path, &host.home);
                if answers.len() == 0 {
                    return Step::Ask(Request::Exists(tree));
                }
                match &answers[0] {
                    Answer::Flag(found) => {
                        if !*found {
                            return self.next_version(host, None, answers, 1);
                        }
                        if answers.len() == 1 {
                            return Step::Ask(Request::TreeDigest(tree));
                        }
                        match &answers[1] {
                            Answer::Digest(Ok(d)) => self.next_version(host, Some(*d), answers, 2),
                            Answer::Digest(Err(e)) => Step::Done(Err(e.clone())),
                            _ => Step::Done(Err(BuildError::Cancelled)),
                        }
                    },
                    _ => Step::Done(Err(BuildError::Cancelled)),
                }
            },
        }
    }

    /// The next step of the action, given the answers so far.
    pub fn run_step(&self, host: &Host, answers: &Vec<Answer>) -> (r: Step<BuildOutput>)
        ensures
            steps::run_view(r) == install_run_step(*self, *host, answers@),
    {
        let root = paths::expand_tilde_in(&self.install_to, &host.home);
        let mut commands: Vec<Vec<String>> = Vec::new();
        commands.push(self.install_args(&root));
        assert(steps::command_views(commands@) =~= seq![install_arguments(*self, root@)]);
        match steps::run_commands("cargo", &commands, answers, 0) {
            Progress::Ask(q) => Step::Ask(q),
            Progress::Failed(e) => Step::Done(Err(e)),
            Progress::Over(_) => {
                let bin = self.installed_bin(&root, &host.exe_suffix);
                if answers.len() <= 1 {
                    return Step::Ask(Request::Read(bin));
                }
                match &answers[1] {
                    Answer::Bytes(content) => Step::Done(self.output(&bin, content)),
                    _ => Step::Done(Err(BuildError::Cancelled)),
                }
            },
        }
    }

    /// The next step towards whether the binary is there. A recorded success
    /// alone proves only that some machine built it.
    pub fn present_step(&self, host: &Host, answers: &Vec<Answer>) -> (r: Step<bool>)
        ensures
            steps::flag_view(r) == install_present_step(*self, *host, answers@),
    {
        if answers.len() == 0 {
            let root = paths::expand_tilde_in(&self.install_to, &host.home);
            return Step::Ask(Request::IsFile(self.installed_bin(&root, &host.exe_suffix)));
        }
        match &answers[0] {
            Answer::Flag(found) => Step::Done(Ok(*found)),
            _ => Step::Done(Err(BuildError::Cancelled)),
        }
    }
}

/// The parts of the preimage, one after the other: what precedes the features,
/// the features, the target, the package, the profile and the toolchain.
spec fn glued(
    head: Seq<u8>,
    features: Seq<u8>,
    target: Seq<u8>,
    package: Seq<u8>,
    profile: Seq<u8>,
    cargo_version: Seq<u8>,
) -> Seq<u8> {
    head + features + text::utf8(":crate:"@) + target + text::utf8(":pkg:"@) + package
        + text::utf8(":profile:"@) + profile + text::utf8(":cargo:"@) + cargo_version
}

/// Each part decides the whole, given the others.
proof fn parts_decide(
    head: (Seq<u8>, Seq<u8>),
    features: (Seq<u8>, Seq<u8>),
    target: Seq<u8>,
    package: (Seq<u8>, Seq<u8>),
    profile: (Seq<u8>, Seq<u8>),
    version: (Seq<u8>, Seq<u8>),
)
    requires
        glued(head.0, features.0, target, package.0, profile.0, version.0) == glued(
            head.1,
            features.1,
            target,
            package.1,
            profile.1,
            version.1,
        ),
    ensures
        features.0 == features.1 && package.0 == package.1 && profile.0 == profile.1 && version.0
            == version.1 ==> head.0 == head.1,
        head.0 == head.1 && package.0 == package.1 && profile.0 == profile.1 && version.0
            == version.1 ==> features.0 == features.1,
        head.0 == head.1 && features.0 == features.1 && profile.0 == profile.1 && version.0
            == version.1 ==> package.0 == package.1,
        head.0 == head.1 && features.0 == features.1 && package.0 == package.1 && version.0
            == version.1 ==> profile.0 == profile.1,
        head.0 == head.1 && features.0 == features.1 && package.0 == package.1 && profile.0
            == profile.1 ==> version.0 == version.1,
{
    let none = Seq::<u8>::empty();
    let c = text::utf8(":crate:"@);
    let k = text::utf8(":pkg:"@);
    let r = text::utf8(":profile:"@);
    let g = text::utf8(":cargo:"@);
    regroup(head.0, features.0, c, target, k, package.0, r, profile.0, g, version.0);
    regroup(head.1, features.1, c, target, k, package.1, r, profile.1, g, version.1);
    if features.0 == features.1 && package.0 == package.1 && profile.0 == profile.1 && version.0
        == version.1 {
        let y = features.0 + (c + target + k + package.0 + r + profile.0 + g + version.0);
        assert(none + head.0 =~= head.0);
        assert(none + head.1 =~= head.1);
        text::middle_decides(none, head.0, head.1, y);
    }
    if head.0 == head.1 && package.0 == package.1 && profile.0 == profile.1 && version.0
        == version.1 {
        let y = c + target + k + package.0 + r + profile.0 + g + version.0;
        text::middle_decides(head.0, features.0, features.1, y);
    }
    if head.0 == head.1 && features.0 == features.1 && profile.0 == profile.1 && version.0
        == version.1 {
        let x = head.0 + features.0 + c + target + k;
        text::middle_decides(x, package.0, package.1, r + profile.0 + g + version.0);
    }
    if head.0 == head.1 && features.0 == features.1 && package.0 == package.1 && version.0
        == version.1 {
        let x = head.0 + features.0 + c + target + k + package.0 + r;
        text::middle_decides(x, profile.0, profile.1, g + version.0);
    }
    if head.0 == head.1 && features.0 == features.1 && package.0 == package.1 && profile.0
        == profile.1 {
        let x = head.0 + features.0 + c + target + k + package.0 + r + profile.0 + g;
        assert(x + version.0 + none =~= x + version.0);
        assert(x + version.1 + none =~= x + version.1);
        text::middle_decides(x, version.0, version.1, none);
    }
}

/// Sequences one after the other, grouped around the first, second, sixth and
/// eighth.
proof fn regroup(
    h: Seq<u8>,
    f: Seq<u8>,
    c: Seq<u8>,
    t: Seq<u8>,
    k: Seq<u8>,
    p: Seq<u8>,
    r: Seq<u8>,
    q: Seq<u8>,
    g: Seq<u8>,
    v: Seq<u8>,
)
    ensures
        h + f + c + t + k + p + r + q + g + v == h + (f + (c + t + k + p + r + q + g + v)),
        h + f + c + t + k + p + r + q + g + v == h + f + (c + t + k + p + r + q + g + v),
        h + f + c + t + k + p + r + q + g + v == h + f + c + t + k + p + (r + q + g + v),
        h + f + c + t + k + p + r + q + g + v == h + f + c + t + k + p + r + q + (g + v),
{
    let a = h + f + c + t + k + p + r + q;
    assert(a + g + v =~= a + (g + v));
    let b = h + f + c + t + k + p;
    assert(b + r + q + (g + v) =~= b + (r + q + g + v));
    let d = h + f;
    assert(d + c + t + k + p =~= d + (c + t + k + p));
    let e = c + t + k + p;
    assert(d + e + (r + q + g + v) =~= d + (e + (r + q + g + v)));
    assert(e + (r + q + g + v) =~= e + r + q + g + v);
    let z = c + t + k + p + r + q + g + v;
    assert(h + f + z =~= h + (f + z));
}

spec fn target_bytes(a: CargoInstall) -> Seq<u8> {
    text::utf8(resolved_name(a))
}

spec fn opt_bytes(s: Option<String>) -> Seq<u8> {
    text::utf8(or_empty(manifest::opt_text(s)))
}

spec fn head_bytes(
    a: CargoInstall,
    tree: Option<Seq<u8>>,
    arch: Seq<char>,
    os: Seq<char>,
) -> Seq<u8> {
    source_bytes(a.source, tree) + source_hash::platform_bytes(arch, os)
}

spec fn all_feature_bytes(a: CargoInstall) -> Seq<u8> {
    let f = order::text_views(a.features@);
    feature_bytes(f, f.len() as int)
}

proof fn preimage_parts(
    a: CargoInstall,
    tree: Option<Seq<u8>>,
    arch: Seq<char>,
    os: Seq<char>,
    cargo_version: Seq<u8>,
)
    ensures
        install_preimage(a, tree, arch, os, cargo_version) == glued(
            head_bytes(a, tree, arch, os),
            all_feature_bytes(a),
            target_bytes(a),
            opt_bytes(a.package),
            opt_bytes(a.profile),
            cargo_version,
        ),
{
    assert(order::text_views(a.features@).len() == a.features@.len());
}

proof fn same_preimage_parts(
    a: CargoInstall,
    t: Option<Seq<u8>>,
    v: Seq<u8>,
    b: CargoInstall,
    u: Option<Seq<u8>>,
    w: Seq<u8>,
    platform: (Seq<char>, Seq<char>),
    other: (Seq<char>, Seq<char>),
)
    requires
        resolved_name(a) == resolved_name(b),
        install_preimage(a, t, platform.0, platform.1, v) == install_preimage(
            b,
            u,
            other.0,
            other.1,
            w,
        ),
    ensures
        ({
            let head = head_bytes(a, t, platform.0, platform.1) == head_bytes(
                b,
                u,
                other.0,
                other.1,
            );
            let features = all_feature_bytes(a) == all_feature_bytes(b);
            let package = opt_bytes(a.package) == opt_bytes(b.package);
            let profile = opt_bytes(a.profile) == opt_bytes(b.profile);
            &&& features && package && profile && v == w ==> head
            &&& head && package && profile && v == w ==> features
            &&& head && features && profile && v == w ==> package
            &&& head && features && package && v == w ==> profile
            &&& head && features && package && profile ==> v == w
        }),
{
    preimage_parts(a, t, platform.0, platform.1, v);
    preimage_parts(b, u, other.0, other.1, w);
    parts_decide(
        (head_bytes(a, t, platform.0, platform.1), head_bytes(b, u, other.0, other.1)),
        (all_feature_bytes(a), all_feature_bytes(b)),
        target_bytes(a),
        (opt_bytes(a.package), opt_bytes(b.package)),
        (opt_bytes(a.profile), opt_bytes(b.profile)),
        (v, w),
    );
}

/// Which package is built is part of the input: installs that differ only there
/// have different preimages.
pub proof fn packages_kept_apart(
    a: CargoInstall,
    b: CargoInstall,
    tree: Option<Seq<u8>>,
    arch: Seq<char>,
    os: Seq<char>,
    cargo_version: Seq<u8>,
)
    requires
        a.source == b.source,
        order::text_views(a.features@) == order::text_views(b.features@),
        resolved_name(a) == resolved_name(b),
        manifest::opt_text(a.profile) == manifest::opt_text(b.profile),
        install_preimage(a, tree, arch, os, cargo_version) == install_preimage(
            b,
            tree,
            arch,
            os,
            cargo_version,
        ),
    ensures
        or_empty(manifest::opt_text(a.package)) == or_empty(manifest::opt_text(b.package)),
{
    same_preimage_parts(a, tree, cargo_version, b, tree, cargo_version, (arch, os), (arch, os));
    text::utf8_injective(
        or_empty(manifest::opt_text(a.package)),
        or_empty(manifest::opt_text(b.package)),
    );
}

/// The profile is part of the input: it changes the binary and not where it
/// lands. Installs that differ only there have different preimages.
pub proof fn profiles_kept_apart(
    a: CargoInstall,
    b: CargoInstall,
    tree: Option<Seq<u8>>,
    arch: Seq<char>,
    os: Seq<char>,
    cargo_version: Seq<u8>,
)
    requires
        a.source == b.source,
        order::text_views(a.features@) == order::text_views(b.features@),
        resolved_name(a) == resolved_name(b),
        manifest::opt_text(a.package) == manifest::opt_text(b.package),
        install_preimage(a, tree, arch, os, cargo_version) == install_preimage(
            b,
            tree,
            arch,
            os,
            cargo_version,
        ),
    ensures
        or_empty(manifest::opt_text(a.profile)) == or_empty(manifest::opt_text(b.profile)),
{
    same_preimage_parts(a, tree, cargo_version, b, tree, cargo_version, (arch, os), (arch, os));
    text::utf8_injective(
        or_empty(manifest::opt_text(a.profile)),
        or_empty(manifest::opt_text(b.profile)),
    );
}

/// The toolchain is part of the input: another version of cargo makes another
/// preimage.
pub proof fn toolchains_kept_apart(
    a: CargoInstall,
    tree: Option<Seq<u8>>,
    arch: Seq<char>,
    os: Seq<char>,
    v: Seq<u8>,
    w: Seq<u8>,
)
    requires
        install_preimage(a, tree, arch, os, v) == install_preimage(a, tree, arch, os, w),
    ensures
        v == w,
{
    same_preimage_parts(a, tree, v, a, tree, w, (arch, os), (arch, os));
}

/// The platform is part of the input: a shared cache must not hand the binary of
/// one platform to another. Different platforms make different preimages.
pub proof fn platforms_kept_apart(
    a: CargoInstall,
    tree: Option<Seq<u8>>,
    platform: (Seq<char>, Seq<char>),
    other: (Seq<char>, Seq<char>),
    cargo_version: Seq<u8>,
)
    requires
        !platform.0.contains(':'),
        !other.0.contains(':'),
        install_preimage(a, tree, platform.0, platform.1, cargo_version) == install_preimage(
            a,
            tree,
            other.0,
            other.1,
            cargo_version,
        ),
    ensures
        platform == other,
{
    same_preimage_parts(a, tree, cargo_version, a, tree, cargo_version, platform, other);
    let x = source_bytes(a.source, tree);
    let p = source_hash::platform_bytes(platform.0, platform.1);
    let q = source_hash::platform_bytes(other.0, other.1);
    let none = Seq::<u8>::empty();
    assert(x + p + none =~= x + p);
    assert(x + q + none =~= x + q);
    text::middle_decides(x, p, q, none);
    source_hash_laws::platforms_are_told_apart(platform.0, platform.1, other.0, other.1);
}

/// The content of a local source tree is part of the input, and so is whether
/// there is a tree at all: different digests make different preimages.
pub proof fn contents_kept_apart(
    a: CargoInstall,
    t: Option<Seq<u8>>,
    u: Option<Seq<u8>>,
    arch: Seq<char>,
    os: Seq<char>,
    cargo_version: Seq<u8>,
)
    requires
        a.source is Path,
        t matches Some(d) ==> d.len() == 32,
        u matches Some(d) ==> d.len() == 32,
        install_preimage(a, t, arch, os, cargo_version) == install_preimage(
            a,
            u,
            arch,
            os,
            cargo_version,
        ),
    ensures
        t == u,
{
    same_preimage_parts(a, t, cargo_version, a, u, cargo_version, (arch, os), (arch, os));
    let marker = text::utf8("pre-clone"@);
    let x = text::utf8("path:"@);
    let y = source_hash::platform_bytes(arch, os);
    let m = match t {
        Some(d) => d,
        None => marker,
    };
    let n = match u {
        Some(d) => d,
        None => marker,
    };
    text::middle_decides(x, m, n, y);
    reveal_strlit("pre-clone");
    vstd::utf8::is_ascii_chars_encode_utf8("pre-clone"@);
    assert(marker.len() == 9);
}

/// Where a local source tree lies is no part of the input: installs that differ
/// only there have the same preimage.
pub proof fn location_is_irrelevant(
    a: CargoInstall,
    b: CargoInstall,
    tree: Option<Seq<u8>>,
    arch: Seq<char>,
    os: Seq<char>,
    cargo_version: Seq<u8>,
)
    requires
        a.source is Path,
        b.source is Path,
        order::text_views(a.features@) == order::text_views(b.features@),
        resolved_name(a) == resolved_name(b),
        manifest::opt_text(a.package) == manifest::opt_text(b.package),
        manifest::opt_text(a.profile) == manifest::opt_text(b.profile),
    ensures
        install_preimage(a, tree, arch, os, cargo_version) == install_preimage(
            b,
            tree,
            arch,
            os,
            cargo_version,
        ),
{
    preimage_parts(a, tree, arch, os, cargo_version);
    preimage_parts(b, tree, arch, os, cargo_version);
}

/// What the first `n` features add to the preimage, as text.
spec fn feature_text(features: Seq<Seq<char>>, n: int) -> Seq<char>
    decreases n,
{
    if n <= 0 {
        Seq::empty()
    } else {
        feature_text(features, n - 1) + ":feat:"@ + features[n - 1]
    }
}

proof fn features_encode(features: Seq<Seq<char>>, n: int)
    ensures
        feature_bytes(features, n) == text::utf8(feature_text(features, n)),
    decreases n,
{
    if n > 0 {
        features_encode(features, n - 1);
        text::utf8_concat(feature_text(features, n - 1), ":feat:"@);
        text::utf8_concat(feature_text(features, n - 1) + ":feat:"@, features[n - 1]);
    } else {
        assert(text::utf8(Seq::<char>::empty()) =~= Seq::<u8>::empty());
    }
}

/// Feature names without a colon.
pub open spec fn plain_features(features: Seq<Seq<char>>) -> bool {
    forall|i: int| 0 <= i < features.len() ==> !(#[trigger] features[i]).contains(':')
}

proof fn features_decode(f: Seq<Seq<char>>, n: int, g: Seq<Seq<char>>, m: int)
    requires
        0 <= n <= f.len(),
        0 <= m <= g.len(),
        plain_features(f),
        plain_features(g),
        feature_text(f, n) == feature_text(g, m),
    ensures
        f.take(n) == g.take(m),
    decreases n,
{
    reveal_strlit(":feat:");
    if n > 0 && m > 0 {
        let x = f[n - 1];
        let y = g[m - 1];
        text::last_part_decides(
            feature_text(f, n - 1),
            x,
            feature_text(g, m - 1),
            y,
            ":feat:"@,
            ':',
        );
        features_decode(f, n - 1, g, m - 1);
        assert(f.take(n) =~= f.take(n - 1).push(x));
        assert(g.take(m) =~= g.take(m - 1).push(y));
    } else {
        if n > 0 {
            assert(feature_text(f, n).len() >= 6);
        }
        if m > 0 {
            assert(feature_text(g, m).len() >= 6);
        }
        assert(f.take(n) =~= g.take(m));
    }
}

/// The features are part of the input: installs that differ only there have
/// different preimages, as long as no feature name holds a colon.
pub proof fn features_kept_apart(
    a: CargoInstall,
    b: CargoInstall,
    tree: Option<Seq<u8>>,
    arch: Seq<char>,
    os: Seq<char>,
    cargo_version: Seq<u8>,
)
    requires
        a.source == b.source,
        plain_features(order::text_views(a.features@)),
        plain_features(order::text_views(b.features@)),
        resolved_name(a) == resolved_name(b),
        manifest::opt_text(a.package) == manifest::opt_text(b.package),
        manifest::opt_text(a.profile) == manifest::opt_text(b.profile),
        install_preimage(a, tree, arch, os, cargo_version) == install_preimage(
            b,
            tree,
            arch,
            os,
            cargo_version,
        ),
    ensures
        order::text_views(a.features@) == order::text_views(b.features@),
{
    let f = order::text_views(a.features@);
    let g = order::text_views(b.features@);
    let n = f.len() as int;
    let m = g.len() as int;
    same_preimage_parts(a, tree, cargo_version, b, tree, cargo_version, (arch, os), (arch, os));
    features_encode(f, n);
    features_encode(g, m);
    text::utf8_injective(feature_text(f, n), feature_text(g, m));
    features_decode(f, n, g, m);
    assert(f.take(n) =~= f);
    assert(g.take(m) =~= g);
}

/// The part of the preimage that the manifest decides, as text: the features,
/// the target, the package and the profile.
spec fn choice_text(a: CargoInstall) -> Seq<char> {
    let f = order::text_views(a.features@);
    feature_text(f, f.len() as int) + ":crate:"@ + resolved_name(a) + ":pkg:"@ + or_empty(
        manifest::opt_text(a.package),
    ) + ":profile:"@ + or_empty(manifest::opt_text(a.profile))
}

proof fn choice_encodes(a: CargoInstall)
    ensures
        text::utf8(choice_text(a)) == all_feature_bytes(a) + text::utf8(":crate:"@) + target_bytes(
            a,
        ) + text::utf8(":pkg:"@) + opt_bytes(a.package) + text::utf8(":profile:"@) + opt_bytes(
            a.profile,
        ),
{
    let f = order::text_views(a.features@);
    let name = resolved_name(a);
    let package = or_empty(manifest::opt_text(a.package));
    let profile = or_empty(manifest::opt_text(a.profile));
    features_encode(f, f.len() as int);
    let s = feature_text(f, f.len() as int);
    text::utf8_concat(s, ":crate:"@);
    text::utf8_concat(s + ":crate:"@, name);
    let t = s + ":crate:"@ + name;
    text::utf8_concat(t, ":pkg:"@);
    text::utf8_concat(t + ":pkg:"@, package);
    let u = t + ":pkg:"@ + package;
    text::utf8_concat(u, ":profile:"@);
    text::utf8_concat(u + ":profile:"@, profile);
}

/// Sequences one after the other, grouped into the first, the last two and what
/// stands between them.
proof fn regroup_middle(
    h: Seq<u8>,
    f: Seq<u8>,
    c: Seq<u8>,
    t: Seq<u8>,
    k: Seq<u8>,
    p: Seq<u8>,
    r: Seq<u8>,
    q: Seq<u8>,
    g: Seq<u8>,
    v: Seq<u8>,
)
    ensures
        h + f + c + t + k + p + r + q + g + v == h + (f + c + t + k + p + r + q) + (g + v),
{
    let a = h + f + c + t + k + p + r + q;
    assert(a + g + v =~= a + (g + v));
    let m = f + c + t;
    assert(h + f + c + t =~= h + m);
    let n = m + k + p;
    assert(h + m + k + p =~= h + n);
    assert(h + n + r + q =~= h + (n + r + q));
}

/// No text that the manifest gives holds a colon.
pub open spec fn plain_choices(a: CargoInstall) -> bool {
    &&& plain_features(order::text_views(a.features@))
    &&& !resolved_name(a).contains(':')
    &&& !or_empty(manifest::opt_text(a.package)).contains(':')
    &&& !or_empty(manifest::opt_text(a.profile)).contains(':')
}

/// Installs agree in everything of the manifest that decides what is built.
pub open spec fn same_choices(a: CargoInstall, b: CargoInstall) -> bool {
    &&& order::text_views(a.features@) == order::text_views(b.features@)
    &&& resolved_name(a) == resolved_name(b)
    &&& or_empty(manifest::opt_text(a.package)) == or_empty(manifest::opt_text(b.package))
    &&& or_empty(manifest::opt_text(a.profile)) == or_empty(manifest::opt_text(b.profile))
}

proof fn choices_decode(a: CargoInstall, b: CargoInstall)
    requires
        plain_choices(a),
        plain_choices(b),
        choice_text(a) == choice_text(b),
    ensures
        same_choices(a, b),
{
    let f = order::text_views(a.features@);
    let g = order::text_views(b.features@);
    let n = f.len() as int;
    let m = g.len() as int;
    let p = or_empty(manifest::opt_text(a.package));
    let q = or_empty(manifest::opt_text(b.package));
    let s = feature_text(f, n);
    let t = feature_text(g, m);
    let s1 = s + ":crate:"@ + resolved_name(a);
    let t1 = t + ":crate:"@ + resolved_name(b);
    reveal_strlit(":crate:");
    reveal_strlit(":pkg:");
    reveal_strlit(":profile:");
    text::last_part_decides(
        s1 + ":pkg:"@ + p,
        or_empty(manifest::opt_text(a.profile)),
        t1 + ":pkg:"@ + q,
        or_empty(manifest::opt_text(b.profile)),
        ":profile:"@,
        ':',
    );
    text::last_part_decides(s1, p, t1, q, ":pkg:"@, ':');
    text::last_part_decides(s, resolved_name(a), t, resolved_name(b), ":crate:"@, ':');
    features_decode(f, n, g, m);
    assert(f.take(n) =~= f);
    assert(g.take(m) =~= g);
}

/// The features, the binary target, the package and the profile are the input,
/// beside the source, the platform and the toolchain: over the same ones of
/// these, installs have the same preimage exactly if they agree in all four,
/// whatever their ids, their dependencies, where the tree lies and where the
/// binary goes. The texts hold no colon.
pub proof fn choices_are_the_input(
    a: CargoInstall,
    b: CargoInstall,
    tree: Option<Seq<u8>>,
    arch: Seq<char>,
    os: Seq<char>,
    cargo_version: Seq<u8>,
)
    requires
        a.source is Path && b.source is Path || a.source == b.source,
        plain_choices(a),
        plain_choices(b),
    ensures
        install_preimage(a, tree, arch, os, cargo_version) == install_preimage(
            b,
            tree,
            arch,
            os,
            cargo_version,
        ) <==> same_choices(a, b),
{
    let h = head_bytes(a, tree, arch, os);
    let c = text::utf8(":crate:"@);
    let k = text::utf8(":pkg:"@);
    let r = text::utf8(":profile:"@);
    let g = text::utf8(":cargo:"@);
    preimage_parts(a, tree, arch, os, cargo_version);
    preimage_parts(b, tree, arch, os, cargo_version);
    choice_encodes(a);
    choice_encodes(b);
    regroup_middle(
        h,
        all_feature_bytes(a),
        c,
        target_bytes(a),
        k,
        opt_bytes(a.package),
        r,
        opt_bytes(a.profile),
        g,
        cargo_version,
    );
    regroup_middle(
        h,
        all_feature_bytes(b),
        c,
        target_bytes(b),
        k,
        opt_bytes(b.package),
        r,
        opt_bytes(b.profile),
        g,
        cargo_version,
    );
    if install_preimage(a, tree, arch, os, cargo_version) == install_preimage(
        b,
        tree,
        arch,
        os,
        cargo_version,
    ) {
        text::middle_decides(
            h,
            text::utf8(choice_text(a)),
            text::utf8(choice_text(b)),
            g + cargo_version,
        );
        text::utf8_injective(choice_text(a), choice_text(b));
        choices_decode(a, b);
    }
}

} // verus!
